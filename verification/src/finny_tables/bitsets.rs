//! Bitboards read as lists of pieces, in the order the cache refresh walks them.
use vstd::prelude::*;
use vstd::multiset::Multiset;
use crate::bitboard::{has_bit, lemma_bit_and, lemma_bit_not};

verus! {

/// The squares from `s` up whose bit is set in `bb`, in ascending order, each paired with `code`.
pub open spec fn tagged_from(bb: u64, s: int, code: usize) -> Seq<(usize, usize)>
    decreases 64 - s,
{
    if s < 0 || s >= 64 {
        Seq::empty()
    } else if has_bit(bb, s as u64) {
        seq![(s as usize, code)] + tagged_from(bb, s + 1, code)
    } else {
        tagged_from(bb, s + 1, code)
    }
}

/// Piece code of cache slot `k`: slots 0..6 are White pawn..king, slots 6..12 Black pawn..king.
pub open spec fn slot_code(k: int) -> usize {
    if k < 6 { (k + 1) as usize } else { (k + 3) as usize }
}

/// Slot of a piece code, or -1 for a code no slot holds.
pub open spec fn slot_of_code(c: usize) -> int {
    if 1 <= c <= 6 { c - 1 } else if 9 <= c <= 14 { c - 3 } else { -1 }
}

/// The pieces of the first `n` slots, slot after slot, with the squares of slot `k` read from `mask(k)`.
pub open spec fn slots_pieces(mask: spec_fn(int) -> u64, n: int) -> Seq<(usize, usize)>
    decreases n,
{
    if n <= 0 {
        Seq::empty()
    } else {
        slots_pieces(mask, n - 1) + tagged_from(mask(n - 1), 0, slot_code(n - 1))
    }
}

/// Squares of slot `k` in a pair of color and piece-type bitboards.
pub open spec fn slot_mask(color_bb: [u64; 2], type_bb: [u64; 6], k: int) -> u64 {
    color_bb[k / 6] & type_bb[k % 6]
}

/// The slot masks of a pair of color and piece-type bitboards.
pub open spec fn board_masks(color_bb: [u64; 2], type_bb: [u64; 6]) -> spec_fn(int) -> u64 {
    |k: int| slot_mask(color_bb, type_bb, k)
}

/// The pieces a pair of color and piece-type bitboards holds, slot after slot, squares ascending.
pub open spec fn bb_pieces(color_bb: [u64; 2], type_bb: [u64; 6]) -> Seq<(usize, usize)> {
    slots_pieces(board_masks(color_bb, type_bb), 12)
}

/// Squares of slot `k` set in the old bitboards and not in the new ones.
pub open spec fn gone_masks(old_color: [u64; 2], old_type: [u64; 6], new_color: [u64; 2], new_type: [u64; 6]) -> spec_fn(int) -> u64 {
    |k: int| slot_mask(old_color, old_type, k) & !slot_mask(new_color, new_type, k)
}

/// Squares of slot `k` set in the new bitboards and not in the old ones.
pub open spec fn come_masks(old_color: [u64; 2], old_type: [u64; 6], new_color: [u64; 2], new_type: [u64; 6]) -> spec_fn(int) -> u64 {
    |k: int| slot_mask(new_color, new_type, k) & !slot_mask(old_color, old_type, k)
}

/// Two bitboards agree from square `s` up.
pub open spec fn agree_from(x: u64, y: u64, s: int) -> bool {
    forall|t: int| s <= t < 64 ==> #[trigger] has_bit(x, t as u64) == has_bit(y, t as u64)
}

/// Bitboards that agree from `s` up list the same squares from `s` up.
pub proof fn lemma_tagged_agree(x: u64, y: u64, s: int, code: usize)
    requires
        agree_from(x, y, s),
    ensures
        tagged_from(x, s, code) == tagged_from(y, s, code),
    decreases 64 - s,
{
    if 0 <= s < 64 {
        assert(has_bit(x, s as u64) == has_bit(y, s as u64));
        lemma_tagged_agree(x, y, s + 1, code);
    }
}

/// With no square set in `[s, t)`, the listing from `s` is the listing from `t`.
pub proof fn lemma_tagged_skip(x: u64, s: int, t: int, code: usize)
    requires
        0 <= s <= t <= 64,
        forall|u: int| s <= u < t ==> !#[trigger] has_bit(x, u as u64),
    ensures
        tagged_from(x, s, code) == tagged_from(x, t, code),
    decreases t - s,
{
    if s < t {
        assert(!has_bit(x, s as u64));
        lemma_tagged_skip(x, s + 1, t, code);
    }
}

/// Clearing the lowest set bit drops exactly that square.
pub proof fn lemma_clear_lowest(b: u64, t: u64, s: u64)
    requires
        b != 0,
        t < 64,
        s < 64,
        (b >> t) & 1u64 == 1u64,
        b << ((64 - t) as u64) == 0,
    ensures
        has_bit(b & ((b - 1) as u64), s) == (has_bit(b, s) && s != t),
{
    assert((((b & ((b - 1u64) as u64)) >> s) & 1u64 == 1u64) == (((b >> s) & 1u64 == 1u64) && s != t)) by (bit_vector)
        requires
            b != 0,
            t < 64,
            s < 64,
            (b >> t) & 1u64 == 1u64,
            b << ((64 - t) as u64) == 0,
    ;
}

/// The listing of a nonzero bitboard starts with its lowest square; the rest is the listing of
/// the bitboard with that bit cleared.
pub proof fn lemma_tagged_pop(b: u64, code: usize)
    requires
        b != 0,
    ensures
        ({
            let t = b.trailing_zeros();
            &&& t < 64
            &&& has_bit(b, t as u64)
            &&& tagged_from(b, 0, code) == seq![(t as usize, code)] + tagged_from(b & ((b - 1) as u64), 0, code)
        }),
{
    broadcast use vstd::std_specs::bits::axiom_u64_trailing_zeros;
    let t = b.trailing_zeros();
    let rest = b & ((b - 1) as u64);
    assert forall|u: int| 0 <= u < t implies !#[trigger] has_bit(b, u as u64) by {
        assert((b >> (u as u64)) & 1u64 == 0u64);
    }
    lemma_tagged_skip(b, 0, t as int, code);
    assert forall|u: int| 0 <= u < 64 implies #[trigger] has_bit(rest, u as u64) == (has_bit(b, u as u64) && u != t) by {
        lemma_clear_lowest(b, t as u64, u as u64);
    }
    assert forall|u: int| 0 <= u < t + 1 implies !#[trigger] has_bit(rest, u as u64) by {}
    lemma_tagged_skip(rest, 0, t as int + 1, code);
    assert(agree_from(rest, b, t as int + 1));
    lemma_tagged_agree(rest, b, t as int + 1, code);
}

/// A square is listed once if its bit is set (and it is at or above `s`), else not at all.
pub proof fn lemma_tagged_count(x: u64, s: int, code: usize, v: (usize, usize))
    requires
        0 <= s,
    ensures
        tagged_from(x, s, code).to_multiset().count(v)
            == (if v.1 == code && s <= v.0 < 64 && has_bit(x, v.0 as u64) { 1nat } else { 0nat }),
    decreases 64 - s,
{
    broadcast use vstd::seq_lib::group_to_multiset_ensures;
    broadcast use vstd::multiset::group_multiset_axioms;
    if s >= 64 {
        assert(tagged_from(x, s, code) =~= Seq::<(usize, usize)>::empty());
    } else {
        lemma_tagged_count(x, s + 1, code, v);
        if has_bit(x, s as u64) {
            let head = seq![(s as usize, code)];
            vstd::seq_lib::lemma_multiset_commutative(head, tagged_from(x, s + 1, code));
            assert(head =~= Seq::<(usize, usize)>::empty().push((s as usize, code)));
            assert(Seq::<(usize, usize)>::empty().to_multiset() =~= Multiset::empty());
        }
    }
}

/// Per square and code, how often the first `n` slots of `mask` list it.
pub proof fn lemma_slots_count(mask: spec_fn(int) -> u64, n: int, v: (usize, usize))
    requires
        0 <= n <= 12,
    ensures
        slots_pieces(mask, n).to_multiset().count(v)
            == (if 0 <= slot_of_code(v.1) < n && v.0 < 64 && has_bit(mask(slot_of_code(v.1)), v.0 as u64) { 1nat } else { 0nat }),
    decreases n,
{
    broadcast use vstd::seq_lib::group_to_multiset_ensures;
    broadcast use vstd::multiset::group_multiset_axioms;
    if n == 0 {
        assert(slots_pieces(mask, 0) =~= Seq::<(usize, usize)>::empty());
        assert(Seq::<(usize, usize)>::empty().to_multiset() =~= Multiset::empty());
    } else {
        lemma_slots_count(mask, n - 1, v);
        lemma_tagged_count(mask(n - 1), 0, slot_code(n - 1), v);
        vstd::seq_lib::lemma_multiset_commutative(slots_pieces(mask, n - 1), tagged_from(mask(n - 1), 0, slot_code(n - 1)));
        assert((slot_code(n - 1) == v.1) == (slot_of_code(v.1) == n - 1));
    }
}

/// Replacing the old bitboards by the new ones takes out the pieces that left and puts in the
/// pieces that came, as multisets.
pub proof fn lemma_bb_exchange(old_color: [u64; 2], old_type: [u64; 6], new_color: [u64; 2], new_type: [u64; 6])
    ensures
        (bb_pieces(old_color, old_type) + slots_pieces(come_masks(old_color, old_type, new_color, new_type), 12)).to_multiset()
            == (bb_pieces(new_color, new_type) + slots_pieces(gone_masks(old_color, old_type, new_color, new_type), 12)).to_multiset(),
{
    broadcast use vstd::multiset::group_multiset_axioms;
    let om = board_masks(old_color, old_type);
    let nm = board_masks(new_color, new_type);
    let cm = come_masks(old_color, old_type, new_color, new_type);
    let gm = gone_masks(old_color, old_type, new_color, new_type);
    vstd::seq_lib::lemma_multiset_commutative(slots_pieces(om, 12), slots_pieces(cm, 12));
    vstd::seq_lib::lemma_multiset_commutative(slots_pieces(nm, 12), slots_pieces(gm, 12));
    assert forall|v: (usize, usize)| #![trigger (slots_pieces(om, 12) + slots_pieces(cm, 12)).to_multiset().count(v)]
        (slots_pieces(om, 12) + slots_pieces(cm, 12)).to_multiset().count(v)
        == (slots_pieces(nm, 12) + slots_pieces(gm, 12)).to_multiset().count(v) by {
        lemma_slots_count(om, 12, v);
        lemma_slots_count(nm, 12, v);
        lemma_slots_count(cm, 12, v);
        lemma_slots_count(gm, 12, v);
        let k = slot_of_code(v.1);
        if v.0 < 64 && 0 <= k < 12 {
            let s = v.0 as u64;
            lemma_bit_and(nm(k), !om(k), s);
            lemma_bit_not(om(k), s);
            lemma_bit_and(om(k), !nm(k), s);
            lemma_bit_not(nm(k), s);
        }
    }
    assert((slots_pieces(om, 12) + slots_pieces(cm, 12)).to_multiset() =~= (slots_pieces(nm, 12) + slots_pieces(gm, 12)).to_multiset());
}

/// An empty bitboard lists no squares.
pub proof fn lemma_tagged_zero(s: int, code: usize)
    requires
        0 <= s <= 64,
    ensures
        tagged_from(0u64, s, code) == Seq::<(usize, usize)>::empty(),
    decreases 64 - s,
{
    if s < 64 {
        crate::bitboard::lemma_bit_zero(s as u64);
        lemma_tagged_zero(s + 1, code);
    }
}

/// Bitboards that are all empty hold no pieces.
pub proof fn lemma_empty_board()
    ensures
        bb_pieces([0u64, 0u64], [0u64, 0u64, 0u64, 0u64, 0u64, 0u64]) == Seq::<(usize, usize)>::empty(),
{
    let m = board_masks([0u64, 0u64], [0u64, 0u64, 0u64, 0u64, 0u64, 0u64]);
    assert forall|n: int| 0 <= n <= 12 implies #[trigger] slots_pieces(m, n) == Seq::<(usize, usize)>::empty() by {
        lemma_empty_slots(m, n);
    }
}

/// Slots whose masks are all empty hold no pieces.
proof fn lemma_empty_slots(m: spec_fn(int) -> u64, n: int)
    requires
        0 <= n <= 12,
        m == board_masks([0u64, 0u64], [0u64, 0u64, 0u64, 0u64, 0u64, 0u64]),
    ensures
        slots_pieces(m, n) == Seq::<(usize, usize)>::empty(),
    decreases n,
{
    if n > 0 {
        lemma_empty_slots(m, n - 1);
        assert(m(n - 1) == 0u64 & 0u64);
        assert(0u64 & 0u64 == 0u64) by (bit_vector);
        lemma_tagged_zero(0, slot_code(n - 1));
        assert(slots_pieces(m, n) =~= Seq::<(usize, usize)>::empty());
    }
}

} // verus!
