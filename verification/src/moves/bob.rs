//! Attack tables for sliding pieces, indexed by blocker subsets of a relevance mask.
use vstd::prelude::*;

verus! {

/// Row `square` of an attack table: `row[i]` is the attack set for the `i`-th blocker
/// configuration that `enumerate` lists for the mask that `mask_generator` gives `square`.
pub open spec fn attack_row_ok<AG: Fn(u64, u64) -> u64, MG: Fn(u64) -> u64, EV: Fn(u64) -> Vec<u64>>(
    attack_generator: AG,
    mask_generator: MG,
    enumerate: EV,
    square: u64,
    row: Seq<u64>,
) -> bool {
    exists|mask: u64, variants: Vec<u64>|
        #![trigger call_ensures(mask_generator, (square,), mask), call_ensures(enumerate, (mask,), variants)]
        call_ensures(mask_generator, (square,), mask) && call_ensures(enumerate, (mask,), variants)
            && row.len() == variants@.len()
            && forall|i: int| 0 <= i < row.len() ==> call_ensures(attack_generator, (square, #[trigger] variants@[i]), row[i])
}

/// Builds one attack list per square: for each square, the relevance mask is computed, its
/// blocker configurations are listed by `enumerate`, and the attack set of each configuration
/// is stored in the order of that list.
pub fn generate_attack_table<AG, MG, EV>(attack_generator: AG, mask_generator: MG, enumerate: EV) -> (moves: Vec<Vec<u64>>)
    where
        AG: Fn(u64, u64) -> u64,
        MG: Fn(u64) -> u64,
        EV: Fn(u64) -> Vec<u64>,
    requires
        forall|square: u64| square < 64 ==> call_requires(mask_generator, (square,)),
        forall|mask: u64| call_requires(enumerate, (mask,)),
        forall|square: u64, blockers: u64| square < 64 ==> call_requires(attack_generator, (square, blockers)),
    ensures
        moves.len() == 64,
        forall|square: u64| square < 64 ==> attack_row_ok(attack_generator, mask_generator, enumerate, square, #[trigger] moves@[square as int]@),
{
    let mut moves: Vec<Vec<u64>> = Vec::with_capacity(64);
    let mut square: u64 = 0;
    while square < 64
        invariant
            square <= 64,
            moves.len() == square,
            forall|s: u64| s < 64 ==> call_requires(mask_generator, (s,)),
            forall|m: u64| call_requires(enumerate, (m,)),
            forall|s: u64, b: u64| s < 64 ==> call_requires(attack_generator, (s, b)),
            forall|s: u64| s < square ==> attack_row_ok(attack_generator, mask_generator, enumerate, s, #[trigger] moves@[s as int]@),
        decreases 64 - square,
    {
        let mask = mask_generator(square);
        let blocker_variants = enumerate(mask);
        let mut attacks: Vec<u64> = Vec::with_capacity(blocker_variants.len());
        let mut i: usize = 0;
        while i < blocker_variants.len()
            invariant
                square < 64,
                i <= blocker_variants.len(),
                attacks.len() == i,
                forall|s: u64, b: u64| s < 64 ==> call_requires(attack_generator, (s, b)),
                forall|j: int| 0 <= j < i ==> call_ensures(attack_generator, (square, #[trigger] blocker_variants@[j]), attacks@[j]),
            decreases blocker_variants.len() - i,
        {
            let a = attack_generator(square, blocker_variants[i]);
            attacks.push(a);
            i += 1;
        }
        let ghost row = attacks@;
        moves.push(attacks);
        proof {
            assert(moves@[square as int]@ == row);
            assert(call_ensures(mask_generator, (square,), mask) && call_ensures(enumerate, (mask,), blocker_variants));
            assert(attack_row_ok(attack_generator, mask_generator, enumerate, square, moves@[square as int]@));
        }
        square += 1;
    }
    moves
}

} // verus!
