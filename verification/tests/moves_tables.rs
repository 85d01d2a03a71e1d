use oopsmate::moves::bishops::{get_bishop_attacks, get_bishop_masks};
use oopsmate::moves::bob::generate_attack_table;
use oopsmate::moves::knights::generate_knight_moves;
use oopsmate::moves::pawns::{get_pawn_attacks, RANK_2};

/// Index of an algebraic square such as "e4" (a1 = 0, h8 = 63).
fn idx(name: &str) -> u64 {
    let b = name.as_bytes();
    ((b[1] - b'1') as u64) * 8 + (b[0] - b'a') as u64
}

/// Bitboard of a comma-separated list of squares such as "g2,c6,d3".
fn place(names: &str) -> u64 {
    names.split(',').fold(0u64, |bb, n| bb | (1u64 << idx(n)))
}

fn print_board(bb: u64) {
    for rank in (0..8).rev() {
        let row: String = (0..8).map(|file| if bb >> (rank * 8 + file) & 1 == 1 { '1' } else { '.' }).collect();
        println!("{} {}", rank + 1, row);
    }
    println!("  abcdefgh");
}

fn bits(squares: &[u64]) -> u64 {
    squares.iter().fold(0u64, |bb, &s| bb | (1u64 << s))
}

/// Every subset of `mask`, starting with the empty one.
fn enumerate_subsets(mask: u64) -> Vec<u64> {
    let mut out = Vec::new();
    let mut subset = 0u64;
    loop {
        out.push(subset);
        subset = subset.wrapping_sub(mask) & mask;
        if subset == 0 {
            break;
        }
    }
    out
}

#[test]
fn test_bishop_mask() {
    let mask = get_bishop_masks(idx("e4"));
    print_board(mask);
    assert_eq!(mask, bits(&[10, 14, 19, 21, 35, 37, 42, 46, 49]));
}

#[test]
fn test_bishop_attacks() {
    let blocked = get_bishop_attacks(idx("e4"), place("g2,c6,d3"));
    print_board(blocked);
    assert_eq!(blocked, bits(&[14, 19, 21, 35, 37, 42, 46, 55]));
    let open = get_bishop_attacks(idx("e4"), 0);
    print_board(open);
    assert_eq!(open, bits(&[1, 7, 10, 14, 19, 21, 35, 37, 42, 46, 49, 55, 56]));
}

#[test]
fn test_size_bishop() {
    let bishop_attacks = generate_attack_table(|sq, b| get_bishop_attacks(sq, b), |sq| get_bishop_masks(sq), enumerate_subsets);
    let bishop_masks: Vec<u64> = (0..64).map(|sq| get_bishop_masks(sq)).collect();
    let mut total_attack_bytes = 0;
    for attacks in &bishop_attacks {
        total_attack_bytes += std::mem::size_of_val(attacks.as_slice());
    }
    let total_mask_bytes = std::mem::size_of_val(bishop_masks.as_slice());
    println!(
        "Bishop attacks: {} bytes (~{:.2} KB, {:.2} MB)",
        total_attack_bytes,
        total_attack_bytes as f64 / 1024.0,
        total_attack_bytes as f64 / (1024.0 * 1024.0)
    );
    println!(
        "Bishop masks: {} bytes (~{:.2} KB, {:.2} MB)",
        total_mask_bytes,
        total_mask_bytes as f64 / 1024.0,
        total_mask_bytes as f64 / (1024.0 * 1024.0)
    );
    assert_eq!(bishop_attacks.len(), 64);
    assert_eq!(total_attack_bytes, 5248 * 8);
    assert_eq!(total_mask_bytes, 64 * 8);
}

#[test]
fn test_knight_attacks() {
    let moves = generate_knight_moves();
    for ele in moves {
        print_board(ele);
    }
    assert_eq!(moves[0], bits(&[10, 17]));
    assert_eq!(moves[idx("e4") as usize], bits(&[11, 13, 18, 22, 34, 38, 43, 45]));
    assert_eq!(moves[63], bits(&[46, 53]));
}

#[test]
fn test_size_knight() {
    let moves = generate_knight_moves();
    let total_bytes = moves.len() * std::mem::size_of::<u64>();
    println!(
        "Knight table size: {} bytes (~{:.2} KB, {:.2} MB)",
        total_bytes,
        total_bytes as f64 / 1024.0,
        total_bytes as f64 / (1024.0 * 1024.0)
    );
    assert_eq!(total_bytes, 512);
}

#[test]
fn test_generate_pawn_moves() {
    let moves = get_pawn_attacks(RANK_2, 0, 0, 0);
    println!("{}", moves.count_ones());
    print_board(moves);
    assert_eq!(moves.count_ones(), 16);
    assert_eq!(moves, 0x0000_0000_FFFF_0000);
}

#[test]
fn pawn_captures_and_en_passant() {
    // White pawn on e5 with a black pawn on d5 that just double-pushed: push to e6, capture d6 en passant.
    let moves = get_pawn_attacks(place("e5"), place("d5,f6"), 0, place("d6"));
    assert_eq!(moves, place("e6,f6,d6"));
    // Black pawns on rank 7 push one or two squares down.
    let black = get_pawn_attacks(place("a7"), 0, 1, 0);
    assert_eq!(black, place("a6,a5"));
}

#[test]
fn bishop_table_rows_follow_the_subsets() {
    let table = generate_attack_table(|sq, b| get_bishop_attacks(sq, b), |sq| get_bishop_masks(sq), enumerate_subsets);
    let sq = idx("e4");
    let subsets = enumerate_subsets(get_bishop_masks(sq));
    for (i, &blockers) in subsets.iter().enumerate() {
        assert_eq!(table[sq as usize][i], get_bishop_attacks(sq, blockers));
    }
}
