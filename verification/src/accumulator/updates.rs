//! Refreshing and incrementally updating accumulators.
use vstd::prelude::*;
use super::{Accumulator, ft_ready, lemma_column_index, lemma_piece_feature_range, lemma_sum_over_step, leading,
    matches_pieces, columns_updated, psqt_updated, updated_from, feature_sum, psqt_sum, column_weight, bucket_weight,
    piece_feature, signed, valid_pieces};
use crate::aligned::AlignedBuffer;
use crate::feature_transformer::{FeatureTransformer, PSQT_BUCKETS};
use crate::features::{make_index, FEATURE_DIMS, BLACK, WHITE};
use crate::loader::{wrap_i16, wrap_i32};
use crate::arith::{lemma_wrap_i16_add, lemma_wrap_i32_add, lemma_wrapping_add_i16, lemma_wrapping_add_i32,
    lemma_wrapping_sub_i16, lemma_wrapping_sub_i32, lemma_wrap_i16_id, lemma_wrap_i32_id};

verus! {

/// Adds (`add`) or subtracts column block `feature_idx` of the weights to the values of `buf`,
/// wrapping around.
fn apply_columns(buf: &mut [i16], ft: &FeatureTransformer, feature_idx: usize, add: bool, size: usize)
    requires
        old(buf)@.len() == size,
        ft_ready(ft, size as int),
        feature_idx < FEATURE_DIMS,
    ensures
        final(buf)@.len() == size,
        forall|j: int| 0 <= j < size ==> #[trigger] final(buf)@[j] as int
            == wrap_i16(old(buf)@[j] + signed(add, ft.weights@[feature_idx * size + j] as int)),
{
    let _ = ft.weights.len();
    assert(feature_idx * size <= FEATURE_DIMS * size) by (nonlinear_arith)
        requires
            feature_idx < FEATURE_DIMS,
    ;
    let offset = feature_idx * size;
    let mut j: usize = 0;
    while j < size
        invariant
            feature_idx < FEATURE_DIMS,
            ft_ready(ft, size as int),
            offset == feature_idx * size,
            FEATURE_DIMS * size <= usize::MAX,
            buf@.len() == size,
            j <= size,
            forall|k: int| 0 <= k < j ==> #[trigger] buf@[k] as int
                == wrap_i16(old(buf)@[k] + signed(add, ft.weights@[feature_idx * size + k] as int)),
            forall|k: int| j <= k < size ==> #[trigger] buf@[k] == old(buf)@[k],
        decreases size - j,
    {
        proof { lemma_column_index(feature_idx as int, size as int, j as int); }
        let w = ft.weights.get(offset + j);
        let a = buf[j];
        proof {
            lemma_wrapping_add_i16(a, w);
            lemma_wrapping_sub_i16(a, w);
        }
        buf[j] = if add { a.wrapping_add(w) } else { a.wrapping_sub(w) };
        j += 1;
    }
}

/// Adds (`add`) or subtracts the PSQT weights of feature `feature_idx` to `row`, wrapping around.
fn apply_psqt(row: &mut [i32; 8], ft: &FeatureTransformer, feature_idx: usize, add: bool, size: usize)
    requires
        ft_ready(ft, size as int),
        feature_idx < FEATURE_DIMS,
    ensures
        forall|b: int| 0 <= b < 8 ==> #[trigger] final(row)[b] as int
            == wrap_i32(old(row)[b] + signed(add, ft.psqt_weights@[feature_idx * 8 + b] as int)),
{
    let mut b: usize = 0;
    while b < PSQT_BUCKETS
        invariant
            feature_idx < FEATURE_DIMS,
            ft_ready(ft, size as int),
            b <= 8,
            forall|k: int| 0 <= k < b ==> #[trigger] row[k] as int
                == wrap_i32(old(row)[k] + signed(add, ft.psqt_weights@[feature_idx * 8 + k] as int)),
            forall|k: int| b <= k < 8 ==> #[trigger] row[k] == old(row)[k],
        decreases 8 - b,
    {
        proof { lemma_column_index(feature_idx as int, 8, b as int); }
        let w = ft.psqt_weights.get(feature_idx * PSQT_BUCKETS + b);
        let a = row[b];
        proof {
            lemma_wrapping_add_i32(a, w);
            lemma_wrapping_sub_i32(a, w);
        }
        row[b] = if add { a.wrapping_add(w) } else { a.wrapping_sub(w) };
        b += 1;
    }
}

/// Adds (`add`) or subtracts, for the first `count` listed pieces, their feature columns
/// from perspective `p` with king on `ksq` to the values of `buf`, wrapping around.
pub(crate) fn apply_piece_columns(buf: &mut [i16], pieces: &[(usize, usize)], count: usize, p: usize, ksq: usize,
    ft: &FeatureTransformer, add: bool, size: usize)
    requires
        old(buf)@.len() == size,
        ft_ready(ft, size as int),
        count <= pieces@.len(),
        valid_pieces(pieces@),
        p < 2,
        ksq < 64,
    ensures
        final(buf)@.len() == size,
        forall|j: int| 0 <= j < size ==> #[trigger] final(buf)@[j] as int
            == wrap_i16(old(buf)@[j] + signed(add, feature_sum(ft.weights@, size as int, p as int, ksq as int,
                pieces@.take(count as int), j))),
{
    let mut k: usize = 0;
    while k < count
        invariant
            buf@.len() == size,
            ft_ready(ft, size as int),
            count <= pieces@.len(),
            valid_pieces(pieces@),
            p < 2,
            ksq < 64,
            k <= count,
            forall|j: int| 0 <= j < size ==> #[trigger] buf@[j] as int
                == wrap_i16(old(buf)@[j] + signed(add, feature_sum(ft.weights@, size as int, p as int, ksq as int,
                    pieces@.take(k as int), j))),
        decreases count - k,
    {
        let (sq, pc) = pieces[k];
        assert(pieces@[k as int].0 < 64 && pieces@[k as int].1 < 16);
        let f = make_index(p, sq, pc, ksq);
        let ghost before = buf@;
        apply_columns(buf, ft, f, add, size);
        proof {
            assert forall|j: int| 0 <= j < size implies #[trigger] buf@[j] as int
                == wrap_i16(old(buf)@[j] + signed(add, feature_sum(ft.weights@, size as int, p as int, ksq as int,
                    pieces@.take(k + 1), j))) by {
                let cw = column_weight(ft.weights@, size as int, p as int, ksq as int, j);
                lemma_sum_over_step(pieces@, k as int, cw);
                let s_k = feature_sum(ft.weights@, size as int, p as int, ksq as int, pieces@.take(k as int), j);
                assert(cw(pieces@[k as int]) == ft.weights@[f * size + j] as int);
                assert(before[j] as int == wrap_i16(old(buf)@[j] + signed(add, s_k)));
                lemma_wrap_i16_add(old(buf)@[j] + signed(add, s_k), signed(add, ft.weights@[f * size + j] as int));
            }
        }
        k += 1;
    }
}

/// Adds (`add`) or subtracts, for every listed piece, its PSQT weights from perspective `p`
/// with king on `ksq` to `row`, wrapping around.
pub(crate) fn apply_piece_psqt(row: &mut [i32; 8], pieces: &[(usize, usize)], p: usize, ksq: usize,
    ft: &FeatureTransformer, add: bool, size: usize)
    requires
        ft_ready(ft, size as int),
        valid_pieces(pieces@),
        p < 2,
        ksq < 64,
    ensures
        forall|b: int| 0 <= b < 8 ==> #[trigger] final(row)[b] as int
            == wrap_i32(old(row)[b] + signed(add, psqt_sum(ft.psqt_weights@, p as int, ksq as int, pieces@, b))),
{
    let mut k: usize = 0;
    while k < pieces.len()
        invariant
            ft_ready(ft, size as int),
            valid_pieces(pieces@),
            p < 2,
            ksq < 64,
            k <= pieces@.len(),
            forall|b: int| 0 <= b < 8 ==> #[trigger] row[b] as int
                == wrap_i32(old(row)[b] + signed(add, psqt_sum(ft.psqt_weights@, p as int, ksq as int,
                    pieces@.take(k as int), b))),
        decreases pieces@.len() - k,
    {
        let (sq, pc) = pieces[k];
        assert(pieces@[k as int].0 < 64 && pieces@[k as int].1 < 16);
        let f = make_index(p, sq, pc, ksq);
        let ghost before = *row;
        apply_psqt(row, ft, f, add, size);
        proof {
            assert forall|b: int| 0 <= b < 8 implies #[trigger] row[b] as int
                == wrap_i32(old(row)[b] + signed(add, psqt_sum(ft.psqt_weights@, p as int, ksq as int,
                    pieces@.take(k + 1), b))) by {
                let bw = bucket_weight(ft.psqt_weights@, p as int, ksq as int, b);
                lemma_sum_over_step(pieces@, k as int, bw);
                let s_k = psqt_sum(ft.psqt_weights@, p as int, ksq as int, pieces@.take(k as int), b);
                assert(bw(pieces@[k as int]) == ft.psqt_weights@[f * 8 + b] as int);
                assert(before[b] as int == wrap_i32(old(row)[b] + signed(add, s_k)));
                lemma_wrap_i32_add(old(row)[b] + signed(add, s_k), signed(add, ft.psqt_weights@[f * 8 + b] as int));
            }
        }
        k += 1;
    }
    assert(pieces@.take(pieces@.len() as int) =~= pieces@);
}


impl<const SIZE: usize> Accumulator<SIZE> {
    /// Creates an empty accumulator: zero columns, zero PSQT scores, nothing computed.
    pub fn new() -> (r: Self)
        ensures
            r.wf(),
            forall|p: int, j: int| 0 <= p < 2 && 0 <= j < SIZE ==> #[trigger] r.accumulation[p]@[j] == 0,
            forall|p: int, b: int| 0 <= p < 2 && 0 <= b < 8 ==> #[trigger] r.psqt_accumulation[p][b] == 0,
            r.computed == [false, false],
    {
        Self {
            accumulation: [AlignedBuffer::with_element(SIZE, 0i16), AlignedBuffer::with_element(SIZE, 0i16)],
            psqt_accumulation: [[0i32; PSQT_BUCKETS]; 2],
            computed: [false, false],
        }
    }

    /// Returns the accumulator values of one side's perspective.
    pub fn get(&self, perspective: usize) -> (r: &[i16])
        requires
            perspective < 2,
        ensures
            r@ == self.accumulation[perspective as int]@,
    {
        self.accumulation[perspective].as_slice()
    }

    /// Returns the accumulator values of one side's perspective for writing.
    pub fn get_mut(&mut self, perspective: usize) -> (r: &mut [i16])
        requires
            perspective < 2,
        ensures
            r@ == old(self).accumulation[perspective as int]@,
            final(self).accumulation[perspective as int]@ == final(r)@,
            final(self).accumulation[1 - perspective as int] == old(self).accumulation[1 - perspective as int],
            final(self).psqt_accumulation == old(self).psqt_accumulation,
            final(self).computed == old(self).computed,
    {
        self.accumulation[perspective].as_mut_slice()
    }

    /// Adds the weights and PSQT weights of feature `feature_idx` to one perspective, wrapping around.
    pub fn add_feature(&mut self, perspective: usize, feature_idx: usize, ft: &FeatureTransformer)
        requires
            perspective < 2,
            feature_idx < FEATURE_DIMS,
            ft_ready(ft, SIZE as int),
            old(self).wf(),
        ensures
            final(self).wf(),
            forall|j: int| 0 <= j < SIZE ==> #[trigger] final(self).accumulation[perspective as int]@[j] as int
                == wrap_i16(old(self).accumulation[perspective as int]@[j] + ft.weights@[feature_idx * SIZE + j]),
            forall|b: int| 0 <= b < 8 ==> #[trigger] final(self).psqt_accumulation[perspective as int][b] as int
                == wrap_i32(old(self).psqt_accumulation[perspective as int][b] + ft.psqt_weights@[feature_idx * 8 + b]),
            final(self).accumulation[1 - perspective as int] == old(self).accumulation[1 - perspective as int],
            final(self).psqt_accumulation[1 - perspective as int] == old(self).psqt_accumulation[1 - perspective as int],
            final(self).computed == old(self).computed,
    {
        apply_columns(self.accumulation[perspective].as_mut_slice(), ft, feature_idx, true, SIZE);
        self.update_psqt(perspective, feature_idx, ft, true);
    }

    /// Takes the weights and PSQT weights of feature `feature_idx` out of one perspective.
    fn remove_feature(&mut self, perspective: usize, feature_idx: usize, ft: &FeatureTransformer)
        requires
            perspective < 2,
            feature_idx < FEATURE_DIMS,
            ft_ready(ft, SIZE as int),
            old(self).wf(),
        ensures
            final(self).wf(),
            forall|j: int| 0 <= j < SIZE ==> #[trigger] final(self).accumulation[perspective as int]@[j] as int
                == wrap_i16(old(self).accumulation[perspective as int]@[j] - ft.weights@[feature_idx * SIZE + j]),
            forall|b: int| 0 <= b < 8 ==> #[trigger] final(self).psqt_accumulation[perspective as int][b] as int
                == wrap_i32(old(self).psqt_accumulation[perspective as int][b] - ft.psqt_weights@[feature_idx * 8 + b]),
            final(self).accumulation[1 - perspective as int] == old(self).accumulation[1 - perspective as int],
            final(self).psqt_accumulation[1 - perspective as int] == old(self).psqt_accumulation[1 - perspective as int],
            final(self).computed == old(self).computed,
    {
        apply_columns(self.accumulation[perspective].as_mut_slice(), ft, feature_idx, false, SIZE);
        self.update_psqt(perspective, feature_idx, ft, false);
    }

    /// Adds (`add`) or subtracts the PSQT weights of feature `feature_idx` to one perspective.
    fn update_psqt(&mut self, perspective: usize, feature_idx: usize, ft: &FeatureTransformer, add: bool)
        requires
            perspective < 2,
            feature_idx < FEATURE_DIMS,
            ft_ready(ft, SIZE as int),
        ensures
            forall|b: int| 0 <= b < 8 ==> #[trigger] final(self).psqt_accumulation[perspective as int][b] as int
                == wrap_i32(old(self).psqt_accumulation[perspective as int][b] + signed(add, ft.psqt_weights@[feature_idx * 8 + b] as int)),
            final(self).accumulation == old(self).accumulation,
            final(self).psqt_accumulation[1 - perspective as int] == old(self).psqt_accumulation[1 - perspective as int],
            final(self).computed == old(self).computed,
    {
        let mut row = self.psqt_accumulation[perspective];
        apply_psqt(&mut row, ft, feature_idx, add, SIZE);
        self.psqt_accumulation[perspective] = row;
    }

    /// Rebuilds one perspective from the biases and the listed pieces.
    fn refresh_perspective(&mut self, perspective: usize, pieces: &[(usize, usize)], ksq: usize, ft: &FeatureTransformer)
        requires
            perspective < 2,
            ksq < 64,
            ft_ready(ft, SIZE as int),
            valid_pieces(pieces@),
            old(self).wf(),
        ensures
            final(self).wf(),
            matches_pieces(final(self).accumulation[perspective as int]@, final(self).psqt_accumulation[perspective as int],
                ft, SIZE as int, perspective as int, ksq as int, pieces@),
            final(self).accumulation[1 - perspective as int] == old(self).accumulation[1 - perspective as int],
            final(self).psqt_accumulation[1 - perspective as int] == old(self).psqt_accumulation[1 - perspective as int],
            final(self).computed == old(self).computed,
    {
        let _ = ft.biases.len();
        let mut j: usize = 0;
        while j < SIZE
            invariant
                perspective < 2,
                ft_ready(ft, SIZE as int),
                self.wf(),
                j <= SIZE,
                forall|k: int| 0 <= k < j ==> #[trigger] self.accumulation[perspective as int]@[k] == ft.biases@[k],
                self.accumulation[1 - perspective as int] == old(self).accumulation[1 - perspective as int],
                self.psqt_accumulation == old(self).psqt_accumulation,
                self.computed == old(self).computed,
            decreases SIZE - j,
        {
            let v = ft.biases.get(j);
            self.accumulation[perspective].set(j, v);
            j += 1;
        }
        self.psqt_accumulation[perspective] = [0i32; PSQT_BUCKETS];
        apply_piece_columns(self.accumulation[perspective].as_mut_slice(), pieces, pieces.len(), perspective, ksq, ft, true, SIZE);
        let mut row = self.psqt_accumulation[perspective];
        apply_piece_psqt(&mut row, pieces, perspective, ksq, ft, true, SIZE);
        self.psqt_accumulation[perspective] = row;
        proof {
            assert(pieces@.take(pieces@.len() as int) =~= pieces@);
            assert forall|k: int| 0 <= k < SIZE implies #[trigger] ft.biases@[k] as int == wrap_i16(ft.biases@[k] as int) by {
                lemma_wrap_i16_id(ft.biases@[k] as int);
            }
        }
    }

    /// Rebuilds both perspectives from the biases and the listed `(square, piece code)` pairs,
    /// with the kings on `ksq`; both perspectives are then computed.
    pub fn refresh(&mut self, pieces: &[(usize, usize)], ksq: [usize; 2], ft: &FeatureTransformer)
        requires
            ksq[0] < 64,
            ksq[1] < 64,
            ft_ready(ft, SIZE as int),
            valid_pieces(pieces@),
            old(self).wf(),
        ensures
            final(self).wf(),
            matches_pieces(final(self).accumulation[0]@, final(self).psqt_accumulation[0], ft, SIZE as int, 0, ksq[0] as int, pieces@),
            matches_pieces(final(self).accumulation[1]@, final(self).psqt_accumulation[1], ft, SIZE as int, 1, ksq[1] as int, pieces@),
            final(self).computed == [true, true],
    {
        self.refresh_perspective(WHITE, pieces, ksq[WHITE], ft);
        self.refresh_perspective(BLACK, pieces, ksq[BLACK], ft);
        self.computed = [true, true];
    }

    /// Computes perspective `P` from `prev`: the PSQT values with all listed changes, the columns
    /// with the first three removed and the first three added pieces (the most one move
    /// changes); perspective `P` is then computed and the other is left as it was.
    pub fn update_incremental_perspective<const P: usize>(&mut self, prev: &Accumulator<SIZE>, added: &[(usize, usize)],
        removed: &[(usize, usize)], ksq: usize, ft: &FeatureTransformer)
        requires
            P < 2,
            ksq < 64,
            ft_ready(ft, SIZE as int),
            valid_pieces(added@),
            valid_pieces(removed@),
            old(self).wf(),
            prev.wf(),
        ensures
            final(self).wf(),
            columns_updated(final(self).accumulation[P as int]@, prev.accumulation[P as int]@, ft, SIZE as int, P as int,
                ksq as int, leading(added@), leading(removed@)),
            psqt_updated(final(self).psqt_accumulation[P as int], prev.psqt_accumulation[P as int], ft, P as int, ksq as int,
                added@, removed@),
            final(self).accumulation[1 - P as int] == old(self).accumulation[1 - P as int],
            final(self).psqt_accumulation[1 - P as int] == old(self).psqt_accumulation[1 - P as int],
            final(self).computed[P as int],
            final(self).computed[1 - P as int] == old(self).computed[1 - P as int],
    {
        let mut row = prev.psqt_accumulation[P];
        let ghost start_row = row;
        apply_piece_psqt(&mut row, removed, P, ksq, ft, false, SIZE);
        let ghost mid_row = row;
        apply_piece_psqt(&mut row, added, P, ksq, ft, true, SIZE);
        self.psqt_accumulation[P] = row;

        let added_count = if added.len() < 3 { added.len() } else { 3 };
        let removed_count = if removed.len() < 3 { removed.len() } else { 3 };
        let mut j: usize = 0;
        while j < SIZE
            invariant
                P < 2,
                prev.wf(),
                self.wf(),
                j <= SIZE,
                forall|k: int| 0 <= k < j ==> #[trigger] self.accumulation[P as int]@[k] == prev.accumulation[P as int]@[k],
                self.accumulation[1 - P as int] == old(self).accumulation[1 - P as int],
                self.psqt_accumulation[P as int] == row,
                self.psqt_accumulation[1 - P as int] == old(self).psqt_accumulation[1 - P as int],
                self.computed == old(self).computed,
            decreases SIZE - j,
        {
            let v = prev.accumulation[P].get(j);
            self.accumulation[P].set(j, v);
            j += 1;
        }
        let ghost copied = self.accumulation[P as int]@;
        apply_piece_columns(self.accumulation[P].as_mut_slice(), removed, removed_count, P, ksq, ft, false, SIZE);
        let ghost mid = self.accumulation[P as int]@;
        apply_piece_columns(self.accumulation[P].as_mut_slice(), added, added_count, P, ksq, ft, true, SIZE);
        self.computed[P] = true;
        proof {
            assert(copied =~= prev.accumulation[P as int]@);
            assert(removed@.take(removed_count as int) =~= leading(removed@));
            assert(added@.take(added_count as int) =~= leading(added@));
            let fa = self.accumulation[P as int]@;
            assert forall|k: int| 0 <= k < SIZE implies #[trigger] fa[k] as int == wrap_i16(prev.accumulation[P as int]@[k]
                - feature_sum(ft.weights@, SIZE as int, P as int, ksq as int, leading(removed@), k)
                + feature_sum(ft.weights@, SIZE as int, P as int, ksq as int, leading(added@), k)) by {
                let r = feature_sum(ft.weights@, SIZE as int, P as int, ksq as int, leading(removed@), k);
                let a = feature_sum(ft.weights@, SIZE as int, P as int, ksq as int, leading(added@), k);
                assert(mid[k] as int == wrap_i16(prev.accumulation[P as int]@[k] - r));
                lemma_wrap_i16_add(prev.accumulation[P as int]@[k] - r, a);
            }
            assert forall|b: int| 0 <= b < 8 implies #[trigger] row[b] as int == wrap_i32(start_row[b]
                - psqt_sum(ft.psqt_weights@, P as int, ksq as int, removed@, b)
                + psqt_sum(ft.psqt_weights@, P as int, ksq as int, added@, b)) by {
                let r = psqt_sum(ft.psqt_weights@, P as int, ksq as int, removed@, b);
                let a = psqt_sum(ft.psqt_weights@, P as int, ksq as int, added@, b);
                assert(mid_row[b] as int == wrap_i32(start_row[b] - r));
                lemma_wrap_i32_add(start_row[b] - r, a);
            }
        }
    }

    /// Computes both perspectives from `prev` when no king moved: the PSQT values with all
    /// listed changes, the columns with the first three removed and added pieces; both
    /// perspectives are then computed.
    pub fn update_incremental(&mut self, prev: &Accumulator<SIZE>, added: &[(usize, usize)], removed: &[(usize, usize)],
        ksq: [usize; 2], ft: &FeatureTransformer)
        requires
            ksq[0] < 64,
            ksq[1] < 64,
            ft_ready(ft, SIZE as int),
            valid_pieces(added@),
            valid_pieces(removed@),
            old(self).wf(),
            prev.wf(),
        ensures
            final(self).wf(),
            forall|p: int| 0 <= p < 2 ==> columns_updated(#[trigger] final(self).accumulation[p]@, prev.accumulation[p]@, ft,
                SIZE as int, p, ksq[p] as int, leading(added@), leading(removed@)),
            forall|p: int| 0 <= p < 2 ==> psqt_updated(#[trigger] final(self).psqt_accumulation[p], prev.psqt_accumulation[p], ft,
                p, ksq[p] as int, added@, removed@),
            final(self).computed == [true, true],
    {
        self.update_incremental_perspective::<0>(prev, added, removed, ksq[WHITE], ft);
        self.update_incremental_perspective::<1>(prev, added, removed, ksq[BLACK], ft);
        assert(self.computed =~= [true, true]);
    }

    /// Applies the removed and then the added pieces' columns of one perspective to `buffer`,
    /// wrapping around.
    pub fn apply_changes_to_buffer(&self, buffer: &mut [i16], added: &[(usize, usize)], removed: &[(usize, usize)],
        ksq: [usize; 2], ft: &FeatureTransformer, perspective: usize)
        requires
            perspective < 2,
            ksq[perspective as int] < 64,
            ft_ready(ft, SIZE as int),
            valid_pieces(added@),
            valid_pieces(removed@),
            old(buffer)@.len() == SIZE,
        ensures
            columns_updated(final(buffer)@, old(buffer)@, ft, SIZE as int, perspective as int, ksq[perspective as int] as int,
                added@, removed@),
    {
        let k = ksq[perspective];
        apply_piece_columns(buffer, removed, removed.len(), perspective, k, ft, false, SIZE);
        let ghost mid = buffer@;
        apply_piece_columns(buffer, added, added.len(), perspective, k, ft, true, SIZE);
        proof {
            assert(removed@.take(removed@.len() as int) =~= removed@);
            assert(added@.take(added@.len() as int) =~= added@);
            let fb = buffer@;
            assert forall|j: int| 0 <= j < SIZE implies #[trigger] fb[j] as int == wrap_i16(old(buffer)@[j]
                - feature_sum(ft.weights@, SIZE as int, perspective as int, k as int, removed@, j)
                + feature_sum(ft.weights@, SIZE as int, perspective as int, k as int, added@, j)) by {
                let r = feature_sum(ft.weights@, SIZE as int, perspective as int, k as int, removed@, j);
                assert(mid[j] as int == wrap_i16(old(buffer)@[j] - r));
                lemma_wrap_i16_add(old(buffer)@[j] - r, feature_sum(ft.weights@, SIZE as int, perspective as int, k as int, added@, j));
            }
        }
    }

    /// Takes every removed piece out of and puts every added piece into both perspectives, with
    /// the kings on `ksq`, wrapping around; what is computed stays as it was.
    pub fn update_with_ksq(&mut self, added: &[(usize, usize)], removed: &[(usize, usize)], ksq: [usize; 2],
        ft: &FeatureTransformer)
        requires
            ksq[0] < 64,
            ksq[1] < 64,
            ft_ready(ft, SIZE as int),
            valid_pieces(added@),
            valid_pieces(removed@),
            old(self).wf(),
        ensures
            final(self).wf(),
            forall|p: int| 0 <= p < 2 ==> updated_from(#[trigger] final(self).accumulation[p]@, final(self).psqt_accumulation[p],
                old(self).accumulation[p]@, old(self).psqt_accumulation[p], ft, SIZE as int, p, ksq[p] as int, added@, removed@),
            final(self).computed == old(self).computed,
    {
        self.update_perspective_with(WHITE, added, removed, ksq[WHITE], ft);
        self.update_perspective_with(BLACK, added, removed, ksq[BLACK], ft);
    }

    /// Takes every removed piece out of and puts every added piece into one perspective.
    fn update_perspective_with(&mut self, perspective: usize, added: &[(usize, usize)], removed: &[(usize, usize)],
        ksq: usize, ft: &FeatureTransformer)
        requires
            perspective < 2,
            ksq < 64,
            ft_ready(ft, SIZE as int),
            valid_pieces(added@),
            valid_pieces(removed@),
            old(self).wf(),
        ensures
            final(self).wf(),
            updated_from(final(self).accumulation[perspective as int]@, final(self).psqt_accumulation[perspective as int],
                old(self).accumulation[perspective as int]@, old(self).psqt_accumulation[perspective as int], ft, SIZE as int,
                perspective as int, ksq as int, added@, removed@),
            final(self).accumulation[1 - perspective as int] == old(self).accumulation[1 - perspective as int],
            final(self).psqt_accumulation[1 - perspective as int] == old(self).psqt_accumulation[1 - perspective as int],
            final(self).computed == old(self).computed,
    {
        let ghost before = self.accumulation[perspective as int]@;
        self.apply_changes_to_buffer_mut(perspective, added, removed, ksq, ft);
        let mut row = self.psqt_accumulation[perspective];
        let ghost start_row = row;
        apply_piece_psqt(&mut row, removed, perspective, ksq, ft, false, SIZE);
        let ghost mid_row = row;
        apply_piece_psqt(&mut row, added, perspective, ksq, ft, true, SIZE);
        self.psqt_accumulation[perspective] = row;
        proof {
            assert forall|b: int| 0 <= b < 8 implies #[trigger] row[b] as int == wrap_i32(start_row[b]
                - psqt_sum(ft.psqt_weights@, perspective as int, ksq as int, removed@, b)
                + psqt_sum(ft.psqt_weights@, perspective as int, ksq as int, added@, b)) by {
                let r = psqt_sum(ft.psqt_weights@, perspective as int, ksq as int, removed@, b);
                assert(mid_row[b] as int == wrap_i32(start_row[b] - r));
                lemma_wrap_i32_add(start_row[b] - r, psqt_sum(ft.psqt_weights@, perspective as int, ksq as int, added@, b));
            }
        }
    }

    /// Applies the removed and added pieces' columns to one perspective's own values.
    fn apply_changes_to_buffer_mut(&mut self, perspective: usize, added: &[(usize, usize)], removed: &[(usize, usize)],
        ksq: usize, ft: &FeatureTransformer)
        requires
            perspective < 2,
            ksq < 64,
            ft_ready(ft, SIZE as int),
            valid_pieces(added@),
            valid_pieces(removed@),
            old(self).wf(),
        ensures
            final(self).wf(),
            columns_updated(final(self).accumulation[perspective as int]@, old(self).accumulation[perspective as int]@, ft,
                SIZE as int, perspective as int, ksq as int, added@, removed@),
            final(self).accumulation[1 - perspective as int] == old(self).accumulation[1 - perspective as int],
            final(self).psqt_accumulation == old(self).psqt_accumulation,
            final(self).computed == old(self).computed,
    {
        apply_piece_columns(self.accumulation[perspective].as_mut_slice(), removed, removed.len(), perspective, ksq, ft, false, SIZE);
        let ghost mid = self.accumulation[perspective as int]@;
        apply_piece_columns(self.accumulation[perspective].as_mut_slice(), added, added.len(), perspective, ksq, ft, true, SIZE);
        proof {
            assert(removed@.take(removed@.len() as int) =~= removed@);
            assert(added@.take(added@.len() as int) =~= added@);
            let fb = self.accumulation[perspective as int]@;
            assert forall|j: int| 0 <= j < SIZE implies #[trigger] fb[j] as int == wrap_i16(old(self).accumulation[perspective as int]@[j]
                - feature_sum(ft.weights@, SIZE as int, perspective as int, ksq as int, removed@, j)
                + feature_sum(ft.weights@, SIZE as int, perspective as int, ksq as int, added@, j)) by {
                let r = feature_sum(ft.weights@, SIZE as int, perspective as int, ksq as int, removed@, j);
                assert(mid[j] as int == wrap_i16(old(self).accumulation[perspective as int]@[j] - r));
                lemma_wrap_i16_add(old(self).accumulation[perspective as int]@[j] - r,
                    feature_sum(ft.weights@, SIZE as int, perspective as int, ksq as int, added@, j));
            }
        }
    }
}


impl<const SIZE: usize> Default for Accumulator<SIZE> {
    /// An empty accumulator, as `new` makes it.
    fn default() -> (r: Self)
        ensures
            r.wf(),
            forall|p: int, j: int| 0 <= p < 2 && 0 <= j < SIZE ==> #[trigger] r.accumulation[p]@[j] == 0,
            r.computed == [false, false],
    {
        Self::new()
    }
}

} // verus!
