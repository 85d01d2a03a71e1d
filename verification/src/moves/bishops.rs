//! Bishop relevance masks and sliding attacks.
use vstd::prelude::*;
use crate::bitboard::{file_of, has_bit, lemma_bit_or, lemma_bit_single, lemma_bit_zero, rank_of};

verus! {

/// Coordinate reached from `x` after `k` steps in direction `d` (`d` is `1` or `-1`).
pub open spec fn step(x: int, d: int, k: int) -> int {
    if d > 0 { x + k } else { x - k }
}

/// Number of steps from rank `rank` in direction `dr` that leads to the rank of `t`.
pub open spec fn distance(rank: int, dr: int, t: int) -> int {
    if dr > 0 { rank_of(t) - rank } else { rank - rank_of(t) }
}

/// Square `t` lies on the ray that leaves `(rank, file)` in direction `(dr, df)`.
pub open spec fn in_direction(rank: int, file: int, dr: int, df: int, t: int) -> bool {
    let j = distance(rank, dr, t);
    j >= 1 && file_of(t) == step(file, df, j)
}

/// Square strictly inside the board, away from every edge.
pub open spec fn interior(t: int) -> bool {
    1 <= rank_of(t) <= 6 && 1 <= file_of(t) <= 6
}

/// Bit index of the square reached after `j` steps along a ray.
pub open spec fn ray_square(rank: int, file: int, dr: int, df: int, j: int) -> u64 {
    (8 * step(rank, dr, j) + step(file, df, j)) as u64
}

/// None of the first `n - 1` squares of the ray is occupied in `blockers`.
pub open spec fn ray_clear(rank: int, file: int, dr: int, df: int, blockers: u64, n: int) -> bool {
    forall|j: int| 1 <= j < n ==> !#[trigger] has_bit(blockers, ray_square(rank, file, dr, df, j))
}

/// `t` is attacked along the ray: on it, and every square before it is empty.
pub open spec fn attacked_along(rank: int, file: int, dr: int, df: int, blockers: u64, t: int) -> bool {
    in_direction(rank, file, dr, df, t) && ray_clear(rank, file, dr, df, blockers, distance(rank, dr, t))
}

pub open spec fn is_direction(dr: int, df: int) -> bool {
    (dr == 1 || dr == -1) && (df == 1 || df == -1)
}

/// `t` belongs to the relevance mask of a bishop on `s`: a diagonal neighbour at any
/// distance that is not on the board's edge.
pub open spec fn bishop_mask_square(s: int, t: int) -> bool {
    exists|dr: int, df: int| #[trigger] is_direction(dr, df) && in_direction(rank_of(s), file_of(s), dr, df, t) && interior(t)
}

/// `t` is attacked by a bishop on `s` when `blockers` are the occupied squares.
pub open spec fn bishop_attack_square(s: int, blockers: u64, t: int) -> bool {
    exists|dr: int, df: int| #[trigger] is_direction(dr, df) && attacked_along(rank_of(s), file_of(s), dr, df, blockers, t)
}

proof fn lemma_square_coords(r: int, f: int)
    requires
        0 <= r < 8,
        0 <= f < 8,
    ensures
        rank_of(8 * r + f) == r,
        file_of(8 * r + f) == f,
{
}

/// Adds the interior squares of one diagonal ray to `mask`.
fn mask_ray(rank: i32, file: i32, dr: i32, df: i32, mask: u64) -> (out: u64)
    requires
        0 <= rank < 8,
        0 <= file < 8,
        is_direction(dr as int, df as int),
    ensures
        forall|t: u64| t < 64 ==> (#[trigger] has_bit(out, t) <==> (has_bit(mask, t)
            || (in_direction(rank as int, file as int, dr as int, df as int, t as int) && interior(t as int)))),
{
    let mut out = mask;
    let mut r = rank + dr;
    let mut f = file + df;
    let ghost mut k: int = 1;
    while r > 0 && r < 7 && f > 0 && f < 7
        invariant
            0 <= rank < 8,
            0 <= file < 8,
            is_direction(dr as int, df as int),
            k >= 1,
            r == step(rank as int, dr as int, k),
            f == step(file as int, df as int, k),
            forall|j: int| 1 <= j < k ==> interior(8 * step(rank as int, dr as int, j) + step(file as int, df as int, j)),
            forall|t: u64| t < 64 ==> (#[trigger] has_bit(out, t) <==> (has_bit(mask, t)
                || (in_direction(rank as int, file as int, dr as int, df as int, t as int)
                    && distance(rank as int, dr as int, t as int) < k))),
        decreases 8 - k,
    {
        let sq = (r * 8 + f) as u64;
        let ghost prev = out;
        out |= 1u64 << sq;
        proof {
            lemma_square_coords(r as int, f as int);
            assert forall|t: u64| t < 64 implies (#[trigger] has_bit(out, t) <==> (has_bit(mask, t)
                || (in_direction(rank as int, file as int, dr as int, df as int, t as int)
                    && distance(rank as int, dr as int, t as int) < k + 1))) by {
                lemma_bit_or(prev, 1u64 << sq, t);
                lemma_bit_single(sq, t);
                assert(t == 8 * rank_of(t as int) + file_of(t as int));
            }
            assert(interior(8 * step(rank as int, dr as int, k) + step(file as int, df as int, k)));
        }
        r += dr;
        f += df;
        proof { k = k + 1; }
    }
    proof {
        assert forall|t: u64| t < 64 implies (#[trigger] has_bit(out, t) <==> (has_bit(mask, t)
            || (in_direction(rank as int, file as int, dr as int, df as int, t as int) && interior(t as int)))) by {
            if in_direction(rank as int, file as int, dr as int, df as int, t as int) {
                let j = distance(rank as int, dr as int, t as int);
                assert(t == 8 * rank_of(t as int) + file_of(t as int));
                if j < k {
                    assert(interior(8 * step(rank as int, dr as int, j) + step(file as int, df as int, j)));
                    lemma_square_coords(step(rank as int, dr as int, j), step(file as int, df as int, j));
                }
            }
        }
    }
    out
}

/// Relevance mask of a bishop on `square`: the squares of its four diagonals, edges excluded.
pub fn get_bishop_masks(square: u64) -> (mask: u64)
    requires
        square < 64,
    ensures
        forall|t: u64| t < 64 ==> (#[trigger] has_bit(mask, t) <==> bishop_mask_square(square as int, t as int)),
{
    let rank = (square / 8) as i32;
    let file = (square % 8) as i32;
    let m0 = 0u64;
    let m1 = mask_ray(rank, file, 1, 1, m0);
    let m2 = mask_ray(rank, file, 1, -1, m1);
    let m3 = mask_ray(rank, file, -1, 1, m2);
    let mask = mask_ray(rank, file, -1, -1, m3);
    proof {
        assert forall|t: u64| t < 64 implies (#[trigger] has_bit(mask, t) <==> bishop_mask_square(square as int, t as int)) by {
            lemma_bit_zero(t);
            assert(has_bit(m1, t) == (has_bit(m0, t) || (in_direction(rank as int, file as int, 1, 1, t as int) && interior(t as int))));
            assert(has_bit(m2, t) == (has_bit(m1, t) || (in_direction(rank as int, file as int, 1, -1, t as int) && interior(t as int))));
            assert(has_bit(m3, t) == (has_bit(m2, t) || (in_direction(rank as int, file as int, -1, 1, t as int) && interior(t as int))));
            assert(is_direction(1, 1) && is_direction(1, -1) && is_direction(-1, 1) && is_direction(-1, -1));
        }
    }
    mask
}

/// Adds the squares of one ray up to and including the first blocker to `attacks`.
fn attack_ray(rank: i32, file: i32, dr: i32, df: i32, blockers: u64, attacks: u64) -> (out: u64)
    requires
        0 <= rank < 8,
        0 <= file < 8,
        is_direction(dr as int, df as int),
    ensures
        forall|t: u64| t < 64 ==> (#[trigger] has_bit(out, t) <==> (has_bit(attacks, t)
            || attacked_along(rank as int, file as int, dr as int, df as int, blockers, t as int))),
{
    let mut out = attacks;
    let mut r = rank + dr;
    let mut f = file + df;
    let ghost mut k: int = 1;
    let ghost mut blocked = false;
    while r >= 0 && r < 8 && f >= 0 && f < 8
        invariant_except_break
            r == step(rank as int, dr as int, k),
            f == step(file as int, df as int, k),
            !blocked,
            forall|t: u64| t < 64 ==> (#[trigger] has_bit(out, t) <==> (has_bit(attacks, t)
                || (in_direction(rank as int, file as int, dr as int, df as int, t as int)
                    && distance(rank as int, dr as int, t as int) < k))),
        invariant
            0 <= rank < 8,
            0 <= file < 8,
            is_direction(dr as int, df as int),
            k >= 1,
            ray_clear(rank as int, file as int, dr as int, df as int, blockers, k),
        ensures
            blocked ==> has_bit(blockers, ray_square(rank as int, file as int, dr as int, df as int, k)),
            !blocked ==> !(0 <= step(rank as int, dr as int, k) < 8 && 0 <= step(file as int, df as int, k) < 8),
            forall|t: u64| t < 64 ==> (#[trigger] has_bit(out, t) <==> (has_bit(attacks, t)
                || (in_direction(rank as int, file as int, dr as int, df as int, t as int)
                    && distance(rank as int, dr as int, t as int) < (if blocked { k + 1 } else { k })))),
        decreases 9 - k,
    {
        let sq = (r * 8 + f) as u64;
        let ghost prev = out;
        out |= 1u64 << sq;
        proof {
            lemma_square_coords(r as int, f as int);
            assert forall|t: u64| t < 64 implies (#[trigger] has_bit(out, t) <==> (has_bit(attacks, t)
                || (in_direction(rank as int, file as int, dr as int, df as int, t as int)
                    && distance(rank as int, dr as int, t as int) < k + 1))) by {
                lemma_bit_or(prev, 1u64 << sq, t);
                lemma_bit_single(sq, t);
                assert(t == 8 * rank_of(t as int) + file_of(t as int));
            }
            assert(sq == ray_square(rank as int, file as int, dr as int, df as int, k));
        }
        if (blockers & (1u64 << sq)) != 0 {
            proof {
                lemma_bit_and(blockers, 1u64 << sq, sq);
                lemma_bit_single(sq, sq);
                lemma_nonzero_has_single(blockers, sq);
                blocked = true;
            }
            break;
        }
        proof {
            lemma_zero_and_single(blockers, sq);
            assert forall|j: int| 1 <= j < k + 1 implies !#[trigger] has_bit(blockers, ray_square(rank as int, file as int, dr as int, df as int, j)) by {
                if j < k {
                    assert(!has_bit(blockers, ray_square(rank as int, file as int, dr as int, df as int, j)));
                }
            }
        }
        r += dr;
        f += df;
        proof { k = k + 1; }
    }
    proof {
        assert forall|t: u64| t < 64 implies (#[trigger] has_bit(out, t) <==> (has_bit(attacks, t)
            || attacked_along(rank as int, file as int, dr as int, df as int, blockers, t as int))) by {
            if in_direction(rank as int, file as int, dr as int, df as int, t as int) {
                let j = distance(rank as int, dr as int, t as int);
                assert(t == 8 * rank_of(t as int) + file_of(t as int));
                assert(0 <= rank_of(t as int) < 8 && 0 <= file_of(t as int) < 8);
                if j < k || (blocked && j == k) {
                    assert forall|i: int| 1 <= i < j implies !#[trigger] has_bit(blockers, ray_square(rank as int, file as int, dr as int, df as int, i)) by {
                        assert(i < k);
                    }
                } else if blocked {
                    assert(!ray_clear(rank as int, file as int, dr as int, df as int, blockers, j));
                }
            }
        }
    }
    out
}

proof fn lemma_bit_and(a: u64, b: u64, s: u64)
    requires
        s < 64,
    ensures
        has_bit(a & b, s) == (has_bit(a, s) && has_bit(b, s)),
{
    crate::bitboard::lemma_bit_and(a, b, s);
}

proof fn lemma_nonzero_has_single(b: u64, s: u64)
    by (bit_vector)
    requires
        s < 64,
        b & (1u64 << s) != 0,
    ensures
        (b >> s) & 1u64 == 1u64,
{
}

proof fn lemma_zero_and_single(b: u64, s: u64)
    by (bit_vector)
    requires
        s < 64,
        b & (1u64 << s) == 0,
    ensures
        (b >> s) & 1u64 != 1u64,
{
}

/// Squares attacked by a bishop on `square`: each diagonal ray up to and including the first
/// square occupied in `blockers`.
pub fn get_bishop_attacks(square: u64, blockers: u64) -> (attacks: u64)
    requires
        square < 64,
    ensures
        forall|t: u64| t < 64 ==> (#[trigger] has_bit(attacks, t) <==> bishop_attack_square(square as int, blockers, t as int)),
{
    let rank = (square / 8) as i32;
    let file = (square % 8) as i32;
    let a0 = 0u64;
    let a1 = attack_ray(rank, file, 1, 1, blockers, a0);
    let a2 = attack_ray(rank, file, 1, -1, blockers, a1);
    let a3 = attack_ray(rank, file, -1, 1, blockers, a2);
    let attacks = attack_ray(rank, file, -1, -1, blockers, a3);
    proof {
        assert forall|t: u64| t < 64 implies (#[trigger] has_bit(attacks, t) <==> bishop_attack_square(square as int, blockers, t as int)) by {
            lemma_bit_zero(t);
            assert(has_bit(a1, t) == (has_bit(a0, t) || attacked_along(rank as int, file as int, 1, 1, blockers, t as int)));
            assert(has_bit(a2, t) == (has_bit(a1, t) || attacked_along(rank as int, file as int, 1, -1, blockers, t as int)));
            assert(has_bit(a3, t) == (has_bit(a2, t) || attacked_along(rank as int, file as int, -1, 1, blockers, t as int)));
            assert(is_direction(1, 1) && is_direction(1, -1) && is_direction(-1, 1) && is_direction(-1, -1));
        }
    }
    attacks
}


/// No square is occupied on the empty board, whatever the index.
proof fn lemma_empty_has_no_bit(x: u64)
    ensures
        !has_bit(0u64, x),
{
    assert((0u64 >> x) & 1u64 != 1u64) by (bit_vector);
}

/// On the empty board a bishop attacks exactly the other squares of its two diagonals: those as
/// many ranks away as files.
pub proof fn lemma_bishop_empty_board(s: int, t: int)
    requires
        0 <= s < 64,
        0 <= t < 64,
    ensures
        bishop_attack_square(s, 0u64, t) <==> (t != s && abs_diff(rank_of(t), rank_of(s)) == abs_diff(file_of(t), file_of(s))),
{
    let r = rank_of(s);
    let f = file_of(s);
    let dr = if rank_of(t) >= r { 1int } else { -1int };
    let df = if file_of(t) >= f { 1int } else { -1int };
    assert(s == 8 * r + f);
    assert(t == 8 * rank_of(t) + file_of(t));
    if t != s && abs_diff(rank_of(t), r) == abs_diff(file_of(t), f) {
        assert forall|j: int| 1 <= j < distance(r, dr, t) implies !#[trigger] has_bit(0u64, ray_square(r, f, dr, df, j)) by {
            lemma_empty_has_no_bit(ray_square(r, f, dr, df, j));
        }
        assert(is_direction(dr, df) && attacked_along(r, f, dr, df, 0u64, t));
    }
}

/// Distance between two integers.
pub open spec fn abs_diff(a: int, b: int) -> int {
    if a >= b { a - b } else { b - a }
}

} // verus!
