//! Refreshing an accumulator through the cache entry of its king square.
use vstd::prelude::*;
use super::{AccumulatorCache, entry_consistent, CACHE_ENTRIES};
use super::bitsets::{bb_pieces, slots_pieces, tagged_from, slot_code, slot_of_code, board_masks, gone_masks, come_masks,
    slot_mask, lemma_tagged_pop, lemma_tagged_zero, lemma_bb_exchange};
use crate::accumulator::{Accumulator, ft_ready, valid_pieces, matches_pieces, feature_sum, psqt_sum, signed,
    lemma_incremental_matches_refresh, updated_from};
use crate::accumulator::updates::{apply_piece_columns, apply_piece_psqt};
use crate::bitboard::{has_bit, lemma_bit_or, lemma_bit_single};
use crate::feature_transformer::FeatureTransformer;
use crate::loader::{wrap_i16, wrap_i32};
use crate::arith::{lemma_wrap_i16_add, lemma_wrap_i32_add};

verus! {

/// Takes the lowest set square off `b` and returns it.
pub fn pop_lsb(b: &mut u64) -> (r: usize)
    requires
        *old(b) != 0,
    ensures
        r == old(b).trailing_zeros(),
        r < 64,
        *final(b) == *old(b) & ((*old(b) - 1) as u64),
{
    broadcast use vstd::std_specs::bits::axiom_u64_trailing_zeros;
    let s = b.trailing_zeros();
    *b = *b & (*b - 1);
    s as usize
}

/// Some listed piece stands on `s` with a code of slot color `c` (when `by_color`) or slot
/// type `c` (otherwise).
pub open spec fn listed_on(pieces: Seq<(usize, usize)>, s: int, c: int, by_color: bool) -> bool {
    exists|i: int| 0 <= i < pieces.len() && #[trigger] pieces[i].0 == s && 0 <= slot_of_code(pieces[i].1)
        && (if by_color { slot_of_code(pieces[i].1) / 6 == c } else { slot_of_code(pieces[i].1) % 6 == c })
}

/// The color and piece-type bitboards mark exactly the squares of the listed pieces.
pub open spec fn bitboards_hold(color_bb: [u64; 2], type_bb: [u64; 6], pieces: Seq<(usize, usize)>) -> bool {
    &&& forall|c: int, s: int| 0 <= c < 2 && 0 <= s < 64 ==> (#[trigger] has_bit(color_bb[c], s as u64) <==> listed_on(pieces, s, c, true))
    &&& forall|t: int, s: int| 0 <= t < 6 && 0 <= s < 64 ==> (#[trigger] has_bit(type_bb[t], s as u64) <==> listed_on(pieces, s, t, false))
}

/// Bitboards of the listed `(square, piece code)` pairs; codes of no piece are skipped.
pub fn build_bitboards(pieces: &[(usize, usize)]) -> (r: ([u64; 2], [u64; 6]))
    requires
        forall|i: int| 0 <= i < pieces@.len() ==> (#[trigger] pieces@[i]).0 < 64,
    ensures
        bitboards_hold(r.0, r.1, pieces@),
{
    let mut color_bb: [u64; 2] = [0; 2];
    let mut type_bb: [u64; 6] = [0; 6];
    let mut k: usize = 0;
    proof {
        assert forall|c: int, s: int| 0 <= c < 2 && 0 <= s < 64 implies !#[trigger] has_bit(color_bb[c], s as u64) by {
            crate::bitboard::lemma_bit_zero(s as u64);
        }
        assert forall|t: int, s: int| 0 <= t < 6 && 0 <= s < 64 implies !#[trigger] has_bit(type_bb[t], s as u64) by {
            crate::bitboard::lemma_bit_zero(s as u64);
        }
    }
    while k < pieces.len()
        invariant
            k <= pieces@.len(),
            forall|i: int| 0 <= i < pieces@.len() ==> (#[trigger] pieces@[i]).0 < 64,
            bitboards_hold(color_bb, type_bb, pieces@.take(k as int)),
        decreases pieces@.len() - k,
    {
        let (sq, pc) = pieces[k];
        let slot: usize = if 1 <= pc && pc <= 6 { pc - 1 } else if 9 <= pc && pc <= 14 { pc - 3 } else { 12 };
        let ghost old_color = color_bb;
        let ghost old_type = type_bb;
        let ghost prefix = pieces@.take(k as int);
        let ghost next = pieces@.take(k + 1);
        if slot < 12 {
            let mask = 1u64 << sq;
            color_bb[slot / 6] = color_bb[slot / 6] | mask;
            type_bb[slot % 6] = type_bb[slot % 6] | mask;
        }
        proof {
            assert forall|i: int| 0 <= i < k implies #[trigger] next[i] == prefix[i] by {}
            assert(next[k as int] == (sq, pc));
            assert forall|c: int, s: int| 0 <= c < 2 && 0 <= s < 64 implies
                (#[trigger] has_bit(color_bb[c], s as u64) <==> listed_on(next, s, c, true)) by {
                if slot < 12 && c == slot / 6 {
                    lemma_bit_or(old_color[c], 1u64 << sq as u64, s as u64);
                    lemma_bit_single(sq as u64, s as u64);
                }
                if listed_on(prefix, s, c, true) {
                    let i = choose|i: int| 0 <= i < prefix.len() && #[trigger] prefix[i].0 == s && 0 <= slot_of_code(prefix[i].1)
                        && slot_of_code(prefix[i].1) / 6 == c;
                    assert(next[i].0 == s);
                }
                if listed_on(next, s, c, true) {
                    let i = choose|i: int| 0 <= i < next.len() && #[trigger] next[i].0 == s && 0 <= slot_of_code(next[i].1)
                        && slot_of_code(next[i].1) / 6 == c;
                    if i < k {
                        assert(prefix[i].0 == s);
                    }
                }
            }
            assert forall|t: int, s: int| 0 <= t < 6 && 0 <= s < 64 implies
                (#[trigger] has_bit(type_bb[t], s as u64) <==> listed_on(next, s, t, false)) by {
                if slot < 12 && t == slot % 6 {
                    lemma_bit_or(old_type[t], 1u64 << sq as u64, s as u64);
                    lemma_bit_single(sq as u64, s as u64);
                }
                if listed_on(prefix, s, t, false) {
                    let i = choose|i: int| 0 <= i < prefix.len() && #[trigger] prefix[i].0 == s && 0 <= slot_of_code(prefix[i].1)
                        && slot_of_code(prefix[i].1) % 6 == t;
                    assert(next[i].0 == s);
                }
                if listed_on(next, s, t, false) {
                    let i = choose|i: int| 0 <= i < next.len() && #[trigger] next[i].0 == s && 0 <= slot_of_code(next[i].1)
                        && slot_of_code(next[i].1) % 6 == t;
                    if i < k {
                        assert(prefix[i].0 == s);
                    }
                }
            }
        }
        k += 1;
    }
    assert(pieces@.take(pieces@.len() as int) =~= pieces@);
    (color_bb, type_bb)
}

/// Appends the squares of `b`, lowest first, each with `code`, to `list`.
fn push_squares(list: &mut Vec<(usize, usize)>, b: u64, code: usize)
    requires
        valid_pieces(old(list)@),
        code < 16,
    ensures
        final(list)@ == old(list)@ + tagged_from(b, 0, code),
        valid_pieces(final(list)@),
{
    let mut rest = b;
    while rest != 0
        invariant
            code < 16,
            valid_pieces(list@),
            list@ + tagged_from(rest, 0, code) == old(list)@ + tagged_from(b, 0, code),
        decreases tagged_from(rest, 0, code).len(),
    {
        proof { lemma_tagged_pop(rest, code); }
        let ghost before = rest;
        let sq = pop_lsb(&mut rest);
        list.push((sq, code));
        proof {
            assert(list@ + tagged_from(rest, 0, code) =~= old(list)@ + tagged_from(b, 0, code)) by {
                assert(tagged_from(before, 0, code) == seq![(sq, code)] + tagged_from(rest, 0, code));
            }
        }
    }
    proof {
        lemma_tagged_zero(0, code);
        assert(list@ =~= list@ + tagged_from(rest, 0, code));
    }
}

/// Brings the cache entry of king square `ksq` and side `perspective` to the given bitboards, by
/// taking out the pieces that left and putting in those that came, and copies it into that
/// side of the accumulator, which is then computed.
pub fn update_accumulator_refresh_cache<const SIZE: usize>(ft: &FeatureTransformer, accumulator: &mut Accumulator<SIZE>,
    cache: &mut AccumulatorCache<SIZE>, perspective: usize, ksq: usize, current_color_bb: &[u64; 2],
    current_type_bb: &[u64; 6])
    requires
        perspective < 2,
        ksq < 64,
        ft_ready(ft, SIZE as int),
        old(accumulator).wf(),
        old(cache).wf(),
        entry_consistent(&old(cache).entries@[2 * ksq + perspective], ft, perspective as int, ksq as int),
    ensures
        final(cache).wf(),
        old(cache).consistent(ft) ==> final(cache).consistent(ft),
        entry_consistent(&final(cache).entries@[2 * ksq + perspective], ft, perspective as int, ksq as int),
        final(cache).entries@[2 * ksq + perspective].by_color_bb == *current_color_bb,
        final(cache).entries@[2 * ksq + perspective].by_type_bb == *current_type_bb,
        forall|i: int| 0 <= i < CACHE_ENTRIES && i != 2 * ksq + perspective
            ==> #[trigger] final(cache).entries@[i] == old(cache).entries@[i],
        final(accumulator).wf(),
        matches_pieces(final(accumulator).accumulation[perspective as int]@, final(accumulator).psqt_accumulation[perspective as int],
            ft, SIZE as int, perspective as int, ksq as int, bb_pieces(*current_color_bb, *current_type_bb)),
        final(accumulator).accumulation[1 - perspective as int] == old(accumulator).accumulation[1 - perspective as int],
        final(accumulator).psqt_accumulation[1 - perspective as int] == old(accumulator).psqt_accumulation[1 - perspective as int],
        final(accumulator).computed[perspective as int],
        final(accumulator).computed[1 - perspective as int] == old(accumulator).computed[1 - perspective as int],
{
    let idx = 2 * ksq + perspective;
    assert(idx % 2 == perspective && idx / 2 == ksq);
    let mut entry = cache.entries.remove(idx);
    assert(entry == old(cache).entries@[idx as int]);
    let same = entry.by_color_bb[0] == current_color_bb[0] && entry.by_color_bb[1] == current_color_bb[1]
        && entry.by_type_bb[0] == current_type_bb[0] && entry.by_type_bb[1] == current_type_bb[1]
        && entry.by_type_bb[2] == current_type_bb[2] && entry.by_type_bb[3] == current_type_bb[3]
        && entry.by_type_bb[4] == current_type_bb[4] && entry.by_type_bb[5] == current_type_bb[5];
    if !same {
        let ghost old_entry_acc = entry.accumulation@;
        let ghost old_entry_psqt = entry.psqt_accumulation;
        let ghost old_color = entry.by_color_bb;
        let ghost old_type = entry.by_type_bb;
        let mut removed: Vec<(usize, usize)> = Vec::new();
        let mut added: Vec<(usize, usize)> = Vec::new();
        let mut k: usize = 0;
        while k < 12
            invariant
                k <= 12,
                old_color == entry.by_color_bb,
                old_type == entry.by_type_bb,
                valid_pieces(removed@),
                valid_pieces(added@),
                removed@ == slots_pieces(gone_masks(old_color, old_type, *current_color_bb, *current_type_bb), k as int),
                added@ == slots_pieces(come_masks(old_color, old_type, *current_color_bb, *current_type_bb), k as int),
            decreases 12 - k,
        {
            let c = k / 6;
            let pt = k % 6;
            let code = if c == 0 { pt + 1 } else { pt + 9 };
            assert(code == slot_code(k as int));
            let old_bb = entry.by_color_bb[c] & entry.by_type_bb[pt];
            let new_bb = current_color_bb[c] & current_type_bb[pt];
            push_squares(&mut removed, old_bb & !new_bb, code);
            push_squares(&mut added, new_bb & !old_bb, code);
            k += 1;
        }
        let ghost gm = gone_masks(old_color, old_type, *current_color_bb, *current_type_bb);
        let ghost cm = come_masks(old_color, old_type, *current_color_bb, *current_type_bb);
        apply_piece_columns(entry.accumulation.as_mut_slice(), removed.as_slice(), removed.len(),
            perspective, ksq, ft, false, SIZE);
        let ghost mid_acc = entry.accumulation@;
        apply_piece_columns(entry.accumulation.as_mut_slice(), added.as_slice(), added.len(),
            perspective, ksq, ft, true, SIZE);
        let mut row = entry.psqt_accumulation;
        apply_piece_psqt(&mut row, removed.as_slice(), perspective, ksq, ft, false, SIZE);
        let ghost mid_row = row;
        apply_piece_psqt(&mut row, added.as_slice(), perspective, ksq, ft, true, SIZE);
        entry.psqt_accumulation = row;
        entry.by_color_bb = *current_color_bb;
        entry.by_type_bb = *current_type_bb;
        proof {
            let p = perspective as int;
            let kq = ksq as int;
            assert(removed@.take(removed@.len() as int) =~= removed@);
            assert(added@.take(added@.len() as int) =~= added@);
            assert forall|j: int| 0 <= j < SIZE implies #[trigger] entry.accumulation@[j] as int == wrap_i16(old_entry_acc[j]
                - feature_sum(ft.weights@, SIZE as int, p, kq, removed@, j) + feature_sum(ft.weights@, SIZE as int, p, kq, added@, j)) by {
                let r = feature_sum(ft.weights@, SIZE as int, p, kq, removed@, j);
                assert(mid_acc[j] as int == wrap_i16(old_entry_acc[j] - r));
                lemma_wrap_i16_add(old_entry_acc[j] - r, feature_sum(ft.weights@, SIZE as int, p, kq, added@, j));
            }
            assert forall|b: int| 0 <= b < 8 implies #[trigger] row[b] as int == wrap_i32(old_entry_psqt[b]
                - psqt_sum(ft.psqt_weights@, p, kq, removed@, b) + psqt_sum(ft.psqt_weights@, p, kq, added@, b)) by {
                let r = psqt_sum(ft.psqt_weights@, p, kq, removed@, b);
                assert(mid_row[b] as int == wrap_i32(old_entry_psqt[b] - r));
                lemma_wrap_i32_add(old_entry_psqt[b] - r, psqt_sum(ft.psqt_weights@, p, kq, added@, b));
            }
            assert(updated_from(entry.accumulation@, entry.psqt_accumulation, old_entry_acc, old_entry_psqt, ft, SIZE as int, p, kq,
                added@, removed@));
            lemma_bb_exchange(old_color, old_type, *current_color_bb, *current_type_bb);
            lemma_incremental_matches_refresh(ft, SIZE as int, p, kq, bb_pieces(old_color, old_type),
                bb_pieces(*current_color_bb, *current_type_bb), added@, removed@, old_entry_acc, old_entry_psqt,
                entry.accumulation@, entry.psqt_accumulation);
        }
    } else {
        proof {
            assert(entry.by_color_bb =~= *current_color_bb);
            assert(entry.by_type_bb =~= *current_type_bb);
        }
    }
    assert(entry_consistent(&entry, ft, perspective as int, ksq as int));
    let mut j: usize = 0;
    while j < SIZE
        invariant
            perspective < 2,
            accumulator.wf(),
            entry.accumulation@.len() == SIZE,
            j <= SIZE,
            forall|m: int| 0 <= m < j ==> #[trigger] accumulator.accumulation[perspective as int]@[m] == entry.accumulation@[m],
            accumulator.accumulation[1 - perspective as int] == old(accumulator).accumulation[1 - perspective as int],
            accumulator.psqt_accumulation == old(accumulator).psqt_accumulation,
            accumulator.computed == old(accumulator).computed,
        decreases SIZE - j,
    {
        let v = entry.accumulation.get(j);
        accumulator.accumulation[perspective].set(j, v);
        j += 1;
    }
    accumulator.psqt_accumulation[perspective] = entry.psqt_accumulation;
    accumulator.computed[perspective] = true;
    assert(accumulator.accumulation[perspective as int]@ =~= entry.accumulation@);
    cache.entries.insert(idx, entry);
    proof {
        if old(cache).consistent(ft) {
            assert forall|i: int| 0 <= i < CACHE_ENTRIES implies entry_consistent(#[trigger] &cache.entries@[i], ft, i % 2, i / 2) by {
                if i != idx {
                    assert(cache.entries@[i] == old(cache).entries@[i]);
                }
            }
        }
    }
}

} // verus!
