//! King-square caches of accumulators ("Finny tables"): for each king square and side, the
//! accumulator of the pieces last seen there, updated by difference on the next refresh.
use vstd::prelude::*;
use crate::accumulator::{Accumulator, ft_ready, matches_pieces, feature_sum, psqt_sum};
use crate::aligned::AlignedBuffer;
use crate::feature_transformer::{FeatureTransformer, PSQT_BUCKETS};
use crate::loader::{wrap_i16, wrap_i32};
use crate::arith::{lemma_wrap_i16_id, lemma_wrap_i32_id};
use bitsets::{bb_pieces, slots_pieces, tagged_from, board_masks};

pub mod bitsets;
pub mod refresh;

verus! {

/// Number of cache entries: one per king square and side.
pub const CACHE_ENTRIES: usize = 128;

/// The accumulator of one king square and side, with the bitboards of the pieces it sums.
pub struct AccumulatorCacheEntry<const SIZE: usize> {
    pub accumulation: AlignedBuffer<i16>,
    pub psqt_accumulation: [i32; 8],
    pub by_color_bb: [u64; 2],
    pub by_type_bb: [u64; 6],
}

/// The entry holds what a refresh over the pieces of its bitboards gives, from perspective `p`
/// with king on `ksq`.
pub open spec fn entry_consistent<const SIZE: usize>(e: &AccumulatorCacheEntry<SIZE>, ft: &FeatureTransformer, p: int, ksq: int) -> bool {
    matches_pieces(e.accumulation@, e.psqt_accumulation, ft, SIZE as int, p, ksq, bb_pieces(e.by_color_bb, e.by_type_bb))
}

impl<const SIZE: usize> AccumulatorCacheEntry<SIZE> {
    /// An entry of zero columns, zero PSQT values and empty bitboards.
    pub fn new() -> (r: Self)
        ensures
            r.accumulation@.len() == SIZE,
            forall|j: int| 0 <= j < SIZE ==> #[trigger] r.accumulation@[j] == 0,
            r.psqt_accumulation == [0i32, 0i32, 0i32, 0i32, 0i32, 0i32, 0i32, 0i32],
            r.by_color_bb == [0u64, 0u64],
            r.by_type_bb == [0u64, 0u64, 0u64, 0u64, 0u64, 0u64],
    {
        AccumulatorCacheEntry {
            accumulation: AlignedBuffer::with_element(SIZE, 0i16),
            psqt_accumulation: [0; PSQT_BUCKETS],
            by_color_bb: [0; 2],
            by_type_bb: [0; 6],
        }
    }

    /// Resets the entry to the biases, with zero PSQT values and empty bitboards.
    pub fn clear(&mut self, biases: &[i16])
        requires
            biases@.len() == SIZE,
        ensures
            final(self).accumulation@ == biases@,
            final(self).psqt_accumulation == [0i32, 0i32, 0i32, 0i32, 0i32, 0i32, 0i32, 0i32],
            final(self).by_color_bb == [0u64, 0u64],
            final(self).by_type_bb == [0u64, 0u64, 0u64, 0u64, 0u64, 0u64],
    {
        let mut values: Vec<i16> = Vec::with_capacity(SIZE);
        let mut j: usize = 0;
        while j < biases.len()
            invariant
                j <= biases@.len(),
                values@ == biases@.take(j as int),
            decreases biases@.len() - j,
        {
            values.push(biases[j]);
            j += 1;
        }
        assert(biases@.take(biases@.len() as int) =~= biases@);
        self.accumulation = AlignedBuffer::from_vec(values);
        self.psqt_accumulation = [0; PSQT_BUCKETS];
        self.by_color_bb = [0; 2];
        self.by_type_bb = [0; 6];
    }
}

/// An entry cleared to the biases of `ft` is consistent: it sums no pieces.
pub proof fn lemma_cleared_entry_consistent<const SIZE: usize>(e: &AccumulatorCacheEntry<SIZE>, ft: &FeatureTransformer, p: int, ksq: int)
    requires
        ft_ready(ft, SIZE as int),
        e.accumulation@ == ft.biases@,
        e.psqt_accumulation == [0i32, 0i32, 0i32, 0i32, 0i32, 0i32, 0i32, 0i32],
        e.by_color_bb == [0u64, 0u64],
        e.by_type_bb == [0u64, 0u64, 0u64, 0u64, 0u64, 0u64],
    ensures
        entry_consistent(e, ft, p, ksq),
{
    bitsets::lemma_empty_board();
    assert forall|j: int| 0 <= j < SIZE implies #[trigger] e.accumulation@[j] as int
        == wrap_i16(ft.biases@[j] + feature_sum(ft.weights@, SIZE as int, p, ksq, bb_pieces(e.by_color_bb, e.by_type_bb), j)) by {
        lemma_wrap_i16_id(ft.biases@[j] as int);
    }
    assert forall|b: int| 0 <= b < 8 implies #[trigger] e.psqt_accumulation[b] as int
        == wrap_i32(psqt_sum(ft.psqt_weights@, p, ksq, bb_pieces(e.by_color_bb, e.by_type_bb), b)) by {
        lemma_wrap_i32_id(0);
    }
}

/// The cache of one network: entry `2 * ksq + side` belongs to king square `ksq` and `side`.
pub struct AccumulatorCache<const SIZE: usize> {
    pub entries: Vec<AccumulatorCacheEntry<SIZE>>,
}

impl<const SIZE: usize> AccumulatorCache<SIZE> {
    /// One entry per king square and side, each of full width.
    pub open spec fn wf(&self) -> bool {
        &&& self.entries@.len() == CACHE_ENTRIES
        &&& forall|i: int| 0 <= i < CACHE_ENTRIES ==> (#[trigger] self.entries@[i]).accumulation@.len() == SIZE
    }

    /// Every entry holds what a refresh over the pieces of its bitboards gives.
    pub open spec fn consistent(&self, ft: &FeatureTransformer) -> bool {
        &&& self.wf()
        &&& forall|i: int| 0 <= i < CACHE_ENTRIES ==> entry_consistent(#[trigger] &self.entries@[i], ft, i % 2, i / 2)
    }

    /// A cache of fresh entries.
    pub fn new() -> (r: Self)
        ensures
            r.wf(),
            forall|i: int| 0 <= i < CACHE_ENTRIES ==> (#[trigger] r.entries@[i]).by_color_bb == [0u64, 0u64]
                && r.entries@[i].by_type_bb == [0u64, 0u64, 0u64, 0u64, 0u64, 0u64],
    {
        let mut entries: Vec<AccumulatorCacheEntry<SIZE>> = Vec::with_capacity(CACHE_ENTRIES);
        let mut i: usize = 0;
        while i < CACHE_ENTRIES
            invariant
                i <= CACHE_ENTRIES,
                entries@.len() == i,
                forall|k: int| 0 <= k < i ==> (#[trigger] entries@[k]).accumulation@.len() == SIZE
                    && entries@[k].by_color_bb == [0u64, 0u64] && entries@[k].by_type_bb == [0u64, 0u64, 0u64, 0u64, 0u64, 0u64],
            decreases CACHE_ENTRIES - i,
        {
            entries.push(AccumulatorCacheEntry::new());
            i += 1;
        }
        AccumulatorCache { entries }
    }

    /// Resets every entry to the biases.
    pub fn clear(&mut self, biases: &[i16])
        requires
            old(self).wf(),
            biases@.len() == SIZE,
        ensures
            final(self).wf(),
            forall|i: int| 0 <= i < CACHE_ENTRIES ==> {
                &&& (#[trigger] final(self).entries@[i]).accumulation@ == biases@
                &&& final(self).entries@[i].psqt_accumulation == [0i32, 0i32, 0i32, 0i32, 0i32, 0i32, 0i32, 0i32]
                &&& final(self).entries@[i].by_color_bb == [0u64, 0u64]
                &&& final(self).entries@[i].by_type_bb == [0u64, 0u64, 0u64, 0u64, 0u64, 0u64]
            },
    {
        let mut i: usize = 0;
        while i < CACHE_ENTRIES
            invariant
                biases@.len() == SIZE,
                i <= CACHE_ENTRIES,
                self.wf(),
                forall|k: int| 0 <= k < i ==> {
                    &&& (#[trigger] self.entries@[k]).accumulation@ == biases@
                    &&& self.entries@[k].psqt_accumulation == [0i32, 0i32, 0i32, 0i32, 0i32, 0i32, 0i32, 0i32]
                    &&& self.entries@[k].by_color_bb == [0u64, 0u64]
                    &&& self.entries@[k].by_type_bb == [0u64, 0u64, 0u64, 0u64, 0u64, 0u64]
                },
            decreases CACHE_ENTRIES - i,
        {
            let mut entry = self.entries.remove(i);
            entry.clear(biases);
            self.entries.insert(i, entry);
            i += 1;
        }
    }

    /// Refills every entry from scratch with the listed pieces.
    pub fn prepopulate(&mut self, pieces: &[(usize, usize)], ft: &FeatureTransformer, king_squares: [usize; 2])
        requires
            old(self).wf(),
            ft_ready(ft, SIZE as int),
            forall|i: int| 0 <= i < pieces@.len() ==> (#[trigger] pieces@[i]).0 < 64,
        ensures
            final(self).consistent(ft),
            forall|i: int| 0 <= i < CACHE_ENTRIES ==> refresh::bitboards_hold(
                (#[trigger] final(self).entries@[i]).by_color_bb, final(self).entries@[i].by_type_bb, pieces@),
    {
        let (color_bb, type_bb) = refresh::build_bitboards(pieces);
        let mut temp_acc = Accumulator::<SIZE>::new();
        let _ = ft.biases.len();
        let mut i: usize = 0;
        while i < CACHE_ENTRIES
            invariant
                ft_ready(ft, SIZE as int),
                i <= CACHE_ENTRIES,
                self.wf(),
                temp_acc.wf(),
                refresh::bitboards_hold(color_bb, type_bb, pieces@),
                forall|k: int| 0 <= k < i ==> entry_consistent(#[trigger] &self.entries@[k], ft, k % 2, k / 2)
                    && self.entries@[k].by_color_bb == color_bb && self.entries@[k].by_type_bb == type_bb,
            decreases CACHE_ENTRIES - i,
        {
            let mut entry = self.entries.remove(i);
            entry.clear(ft.biases.as_slice());
            self.entries.insert(i, entry);
            proof {
                lemma_cleared_entry_consistent(&self.entries@[i as int], ft, (i % 2) as int, (i / 2) as int);
                assert(2 * (i / 2) + i % 2 == i);
            }
            let ghost before = self.entries@;
            refresh::update_accumulator_refresh_cache(ft, &mut temp_acc, self, i % 2, i / 2, &color_bb, &type_bb);
            proof {
                assert forall|k: int| 0 <= k < i + 1 implies entry_consistent(#[trigger] &self.entries@[k], ft, k % 2, k / 2)
                    && self.entries@[k].by_color_bb == color_bb && self.entries@[k].by_type_bb == type_bb by {
                    if k < i {
                        assert(self.entries@[k] == before[k]);
                    }
                }
            }
            i += 1;
        }
        proof {
            assert forall|i: int| 0 <= i < CACHE_ENTRIES implies refresh::bitboards_hold(
                (#[trigger] self.entries@[i]).by_color_bb, self.entries@[i].by_type_bb, pieces@) by {}
        }
    }
}

/// The caches of both networks.
pub struct FinnyTables {
    pub cache_big: AccumulatorCache<3072>,
    pub cache_small: AccumulatorCache<128>,
}

impl FinnyTables {
    /// Both caches are well formed.
    pub open spec fn wf(&self) -> bool {
        self.cache_big.wf() && self.cache_small.wf()
    }

    /// Both caches are consistent with their networks' feature transformers.
    pub open spec fn consistent(&self, ft_big: &FeatureTransformer, ft_small: &FeatureTransformer) -> bool {
        self.cache_big.consistent(ft_big) && self.cache_small.consistent(ft_small)
    }

    /// Fresh caches for the big and the small network.
    pub fn new() -> (r: Self)
        ensures
            r.wf(),
    {
        FinnyTables { cache_big: AccumulatorCache::new(), cache_small: AccumulatorCache::new() }
    }

    /// Resets both caches to their networks' biases.
    pub fn clear(&mut self, biases_big: &[i16], biases_small: &[i16])
        requires
            old(self).wf(),
            biases_big@.len() == 3072,
            biases_small@.len() == 128,
        ensures
            final(self).wf(),
            forall|i: int| 0 <= i < CACHE_ENTRIES ==> {
                &&& (#[trigger] final(self).cache_big.entries@[i]).accumulation@ == biases_big@
                &&& final(self).cache_big.entries@[i].psqt_accumulation == [0i32, 0i32, 0i32, 0i32, 0i32, 0i32, 0i32, 0i32]
                &&& final(self).cache_big.entries@[i].by_color_bb == [0u64, 0u64]
                &&& final(self).cache_big.entries@[i].by_type_bb == [0u64, 0u64, 0u64, 0u64, 0u64, 0u64]
            },
            forall|i: int| 0 <= i < CACHE_ENTRIES ==> {
                &&& (#[trigger] final(self).cache_small.entries@[i]).accumulation@ == biases_small@
                &&& final(self).cache_small.entries@[i].psqt_accumulation == [0i32, 0i32, 0i32, 0i32, 0i32, 0i32, 0i32, 0i32]
                &&& final(self).cache_small.entries@[i].by_color_bb == [0u64, 0u64]
                &&& final(self).cache_small.entries@[i].by_type_bb == [0u64, 0u64, 0u64, 0u64, 0u64, 0u64]
            },
    {
        self.cache_big.clear(biases_big);
        self.cache_small.clear(biases_small);
    }

    /// Refills both caches from scratch with the listed pieces.
    pub fn prepopulate(&mut self, pieces: &[(usize, usize)], ft_big: &FeatureTransformer, ft_small: &FeatureTransformer,
        king_squares: [usize; 2])
        requires
            old(self).wf(),
            ft_ready(ft_big, 3072),
            ft_ready(ft_small, 128),
            forall|i: int| 0 <= i < pieces@.len() ==> (#[trigger] pieces@[i]).0 < 64,
        ensures
            final(self).consistent(ft_big, ft_small),
            forall|i: int| 0 <= i < CACHE_ENTRIES ==> refresh::bitboards_hold(
                (#[trigger] final(self).cache_big.entries@[i]).by_color_bb, final(self).cache_big.entries@[i].by_type_bb,
                pieces@),
            forall|i: int| 0 <= i < CACHE_ENTRIES ==> refresh::bitboards_hold(
                (#[trigger] final(self).cache_small.entries@[i]).by_color_bb, final(self).cache_small.entries@[i].by_type_bb,
                pieces@),
    {
        self.cache_big.prepopulate(pieces, ft_big, king_squares);
        self.cache_small.prepopulate(pieces, ft_small, king_squares);
    }
}

/// A cache cleared to `ft`'s biases is consistent.
pub proof fn lemma_cleared_cache_consistent<const SIZE: usize>(cache: &AccumulatorCache<SIZE>, ft: &FeatureTransformer)
    requires
        cache.wf(),
        ft_ready(ft, SIZE as int),
        forall|i: int| 0 <= i < CACHE_ENTRIES ==> {
            &&& (#[trigger] cache.entries@[i]).accumulation@ == ft.biases@
            &&& cache.entries@[i].psqt_accumulation == [0i32, 0i32, 0i32, 0i32, 0i32, 0i32, 0i32, 0i32]
            &&& cache.entries@[i].by_color_bb == [0u64, 0u64]
            &&& cache.entries@[i].by_type_bb == [0u64, 0u64, 0u64, 0u64, 0u64, 0u64]
        },
    ensures
        cache.consistent(ft),
{
    assert forall|i: int| 0 <= i < CACHE_ENTRIES implies entry_consistent(#[trigger] &cache.entries@[i], ft, i % 2, i / 2) by {
        lemma_cleared_entry_consistent(&cache.entries@[i], ft, i % 2, i / 2);
    }
}


impl<const SIZE: usize> Default for AccumulatorCacheEntry<SIZE> {
    /// A fresh entry, as `new` makes it.
    fn default() -> (r: Self)
        ensures
            r.accumulation@.len() == SIZE,
            forall|j: int| 0 <= j < SIZE ==> #[trigger] r.accumulation@[j] == 0,
            r.psqt_accumulation == [0i32, 0i32, 0i32, 0i32, 0i32, 0i32, 0i32, 0i32],
            r.by_color_bb == [0u64, 0u64],
            r.by_type_bb == [0u64, 0u64, 0u64, 0u64, 0u64, 0u64],
    {
        Self::new()
    }
}

impl<const SIZE: usize> Default for AccumulatorCache<SIZE> {
    /// A cache of fresh entries, as `new` makes it.
    fn default() -> (r: Self)
        ensures
            r.wf(),
    {
        Self::new()
    }
}

impl Default for FinnyTables {
    /// Fresh caches, as `new` makes them.
    fn default() -> (r: Self)
        ensures
            r.wf(),
    {
        Self::new()
    }
}

} // verus!
