use oopsmate::aligned::AlignedBuffer;
use oopsmate::feature_transformer::FeatureTransformer;
use oopsmate::features::FEATURE_DIMS;
use oopsmate::layers::{AffineTransform, AffineTransformSparseInput, ClippedReLU, SqrClippedReLU};
use oopsmate::network::Network;
use oopsmate::uci::calculate_material;
use oopsmate::{Color, MoveDelta, NNUEProbe, NnueNetworks, Piece};

/// Deterministic pseudo-random values in `[lo, lo + span)`.
struct Noise(u64);

impl Noise {
    fn next(&mut self, lo: i64, span: u64) -> i64 {
        self.0 = self.0.wrapping_mul(6364136223846793005).wrapping_add(1442695040888963407);
        lo + ((self.0 >> 33) % span) as i64
    }
}

/// A network of the real shapes with small pseudo-random parameters.
fn synthetic_network(half: usize, is_big: bool, seed: u64) -> Network {
    let mut noise = Noise(seed);
    let biases: Vec<i16> = (0..half).map(|_| noise.next(0, 96) as i16).collect();
    let weights: Vec<i16> = (0..half * FEATURE_DIMS).map(|_| noise.next(-20, 41) as i16).collect();
    let psqt: Vec<i32> = (0..8 * FEATURE_DIMS).map(|_| noise.next(-3000, 6001) as i32).collect();
    let feature_transformer = FeatureTransformer {
        input_dims: FEATURE_DIMS,
        half_dims: half,
        biases: AlignedBuffer::from_vec(biases),
        weights: AlignedBuffer::from_vec(weights),
        psqt_weights: AlignedBuffer::from_vec(psqt),
    };
    let mut fc_0 = Vec::new();
    let mut fc_1 = Vec::new();
    let mut fc_2 = Vec::new();
    for _ in 0..8 {
        let mut l0 = AffineTransformSparseInput::new(half, 16);
        for i in 0..l0.biases.len() {
            l0.biases.set(i, noise.next(-2000, 4001) as i32);
        }
        for i in 0..l0.weights.len() {
            l0.weights.set(i, noise.next(-40, 81) as i8);
        }
        let mut l1 = AffineTransform::new(30, 32);
        for i in 0..l1.biases.len() {
            l1.biases.set(i, noise.next(-2000, 4001) as i32);
        }
        for i in 0..l1.weights.len() {
            l1.weights.set(i, noise.next(-60, 121) as i8);
        }
        let mut l2 = AffineTransform::new(32, 1);
        for i in 0..l2.biases.len() {
            l2.biases.set(i, noise.next(-2000, 4001) as i32);
        }
        for i in 0..l2.weights.len() {
            l2.weights.set(i, noise.next(-60, 121) as i8);
        }
        fc_0.push(l0);
        fc_1.push(l1);
        fc_2.push(l2);
    }
    Network {
        feature_transformer,
        fc_0,
        fc_1,
        fc_2,
        ac_sqr_0: SqrClippedReLU::new(16),
        ac_0: ClippedReLU::new(16),
        ac_1: ClippedReLU::new(32),
        is_big,
    }
}

fn load_networks() -> NnueNetworks {
    NnueNetworks { big_net: synthetic_network(3072, true, 7), small_net: synthetic_network(128, false, 11) }
}

fn parse_probe_fen(fen: &str) -> (Vec<(Piece, usize)>, Color) {
    let parts: Vec<&str> = fen.split_whitespace().collect();
    let board_str = parts[0];
    let side_str = parts[1];
    let mut pieces = Vec::new();
    let mut rank = 7;
    let mut file = 0;
    for c in board_str.chars() {
        if c == '/' {
            rank -= 1;
            file = 0;
        } else if c.is_ascii_digit() {
            file += c.to_digit(10).unwrap() as usize;
        } else {
            let piece = match c {
                'P' => Piece::WhitePawn,
                'N' => Piece::WhiteKnight,
                'B' => Piece::WhiteBishop,
                'R' => Piece::WhiteRook,
                'Q' => Piece::WhiteQueen,
                'K' => Piece::WhiteKing,
                'p' => Piece::BlackPawn,
                'n' => Piece::BlackKnight,
                'b' => Piece::BlackBishop,
                'r' => Piece::BlackRook,
                'q' => Piece::BlackQueen,
                'k' => Piece::BlackKing,
                _ => panic!("Invalid: {}", c),
            };
            pieces.push((piece, rank * 8 + file));
            file += 1;
        }
    }
    let side = if side_str == "w" { Color::White } else { Color::Black };
    (pieces, side)
}

fn win_rate_a(material: i32) -> f64 {
    let m = (material.clamp(17, 78) as f64) / 58.0;
    let as_coeffs = [-13.50030198, 40.92780883, -36.82753545, 386.83004070];
    (((as_coeffs[0] * m + as_coeffs[1]) * m + as_coeffs[2]) * m) + as_coeffs[3]
}

fn to_cp(pieces: &[(Piece, usize)], side: Color, internal: i32) -> i32 {
    let internal_vec: Vec<(usize, usize, usize)> = pieces
        .iter()
        .map(|(p, sq)| (*sq, p.piece_type(), p.color().unwrap_or(Color::White).index()))
        .collect();
    let material = calculate_material(&internal_vec);
    let cp = (100.0 * (internal as f64) / win_rate_a(material)).round() as i32;
    if side == Color::Black {
        -cp
    } else {
        cp
    }
}

fn eval_internal(probe: &mut NNUEProbe, pieces: &[(Piece, usize)], side: Color, rule50: i32) -> i32 {
    probe.set_position(pieces, rule50);
    probe.evaluate(side)
}

fn assert_delta_matches(
    nets: &NnueNetworks,
    before_fen: &str,
    before_rule50: i32,
    after_fen: &str,
    after_rule50: i32,
    delta: MoveDelta,
) {
    let (before_pieces, before_side) = parse_probe_fen(before_fen);
    let (after_pieces, after_side) = parse_probe_fen(after_fen);
    let mut inc = NNUEProbe::from_networks(nets);
    inc.set_position(&before_pieces, before_rule50);
    let original = inc.evaluate(before_side);
    inc.apply_delta(delta);
    let incremental = inc.evaluate(after_side);
    let mut full = NNUEProbe::from_networks(nets);
    let refreshed = eval_internal(&mut full, &after_pieces, after_side, after_rule50);
    assert_eq!(incremental, refreshed, "incremental delta must match full refresh");
    inc.undo_delta(delta);
    let restored = inc.evaluate(before_side);
    assert_eq!(restored, original, "undo_delta must restore the original evaluation");
    assert_eq!(inc.rule50(), before_rule50, "undo_delta must restore rule50");
}

#[test]
fn integration_api_castling_delta_matches_full_refresh() {
    let nets = load_networks();
    let mut delta = MoveDelta::new(1);
    delta.push_move(4, 6, Piece::WhiteKing, Piece::WhiteKing).unwrap();
    delta.push_move(7, 5, Piece::WhiteRook, Piece::WhiteRook).unwrap();
    assert_delta_matches(&nets, "r3k2r/8/8/8/8/8/8/R3K2R w KQkq - 0 1", 0, "r3k2r/8/8/8/8/8/8/R4RK1 b kq - 1 1", 1, delta);
}

#[test]
fn integration_api_en_passant_delta_matches_full_refresh() {
    let nets = load_networks();
    let mut delta = MoveDelta::new(0);
    delta.push_move(36, 43, Piece::WhitePawn, Piece::WhitePawn).unwrap();
    delta.push_removal(35, Piece::BlackPawn).unwrap();
    assert_delta_matches(&nets, "4k3/8/8/3pP3/8/8/8/4K3 w - d6 0 1", 0, "4k3/8/3P4/8/8/8/8/4K3 b - - 0 1", 0, delta);
}

#[test]
fn integration_api_promotion_delta_matches_full_refresh() {
    let nets = load_networks();
    let mut delta = MoveDelta::new(0);
    delta.push_move(48, 56, Piece::WhitePawn, Piece::WhiteQueen).unwrap();
    assert_delta_matches(&nets, "4k3/P7/8/8/8/8/8/4K3 w - - 0 1", 0, "Q3k3/8/8/8/8/8/8/4K3 b - - 0 1", 0, delta);
}

#[test]
fn integration_api_capture_promotion_delta_matches_full_refresh() {
    let nets = load_networks();
    let mut delta = MoveDelta::new(0);
    delta.push_move(48, 57, Piece::WhitePawn, Piece::WhiteQueen).unwrap();
    delta.push_removal(57, Piece::BlackRook).unwrap();
    assert_delta_matches(&nets, "1r2k3/P7/8/8/8/8/8/4K3 w - - 0 1", 0, "1Q2k3/8/8/8/8/8/8/4K3 b - - 0 1", 0, delta);
}

#[test]
fn integration_api_null_move_matches_full_refresh() {
    let nets = load_networks();
    let fen = "4k3/8/8/8/3P4/8/8/4K3 w - - 17 1";
    let (pieces, _) = parse_probe_fen(fen);
    let mut inc = NNUEProbe::from_networks(&nets);
    inc.set_position(&pieces, 17);
    let original = inc.evaluate(Color::White);
    inc.make_null_move();
    let null_eval = inc.evaluate(Color::Black);
    let mut full = NNUEProbe::from_networks(&nets);
    full.set_position(&pieces, 18);
    let refreshed = full.evaluate(Color::Black);
    assert_eq!(null_eval, refreshed, "null move must match full refresh");
    assert_eq!(inc.rule50(), 18, "null move must increment rule50");
    inc.unmake_null_move();
    assert_eq!(inc.evaluate(Color::White), original, "null move undo must restore eval");
    assert_eq!(inc.rule50(), 17, "null move undo must restore rule50");
}

#[test]
fn integration_api_promotion_resets_rule50_in_make_move() {
    let nets = load_networks();
    let (pieces, _) = parse_probe_fen("4k3/P7/8/8/8/8/8/4K3 w - - 73 1");
    let mut probe = NNUEProbe::from_networks(&nets);
    probe.set_position(&pieces, 73);
    probe.make_move(48, 56, Piece::WhiteQueen);
    assert_eq!(probe.rule50(), 0, "promotion should reset rule50");
    probe.unmake_move(48, 56, Piece::WhitePawn, None);
    assert_eq!(probe.rule50(), 73, "unmake must restore pre-promotion rule50");
}

#[test]
fn incremental_test_refresh_produces_same_result() {
    let nets = load_networks();
    let mut probe1 = NNUEProbe::from_networks(&nets);
    let mut probe2 = NNUEProbe::from_networks(&nets);
    let fen = "r1bqkb1r/pppp1ppp/2n2n2/3Pp3/4P3/2N2N2/PPP2PPP/R1BQKB1R b KQkq - 0 1";
    let (pieces, side) = parse_probe_fen(fen);
    probe1.set_position(&pieces, 0);
    let cp1 = to_cp(&pieces, side, probe1.evaluate(side));
    probe2.set_position(&pieces, 0);
    let cp2 = to_cp(&pieces, side, probe2.evaluate(side));
    assert_eq!(cp1, cp2, "Refresh should produce identical results");
}

#[test]
fn incremental_test_side_to_move_affects_score() {
    let nets = load_networks();
    let mut probe_white = NNUEProbe::from_networks(&nets);
    let mut probe_black = NNUEProbe::from_networks(&nets);
    let fen_w = "rnbqkbnr/pppppppp/8/8/8/8/PPPPPPPP/RNBQKBNR w KQkq - 0 1";
    let fen_b = "rnbqkbnr/pppppppp/8/8/8/8/PPPPPPPP/RNBQKBNR b KQkq - 0 1";
    let (p_w, s_w) = parse_probe_fen(fen_w);
    let (p_b, s_b) = parse_probe_fen(fen_b);
    probe_white.set_position(&p_w, 0);
    probe_black.set_position(&p_b, 0);
    let cp_w = to_cp(&p_w, s_w, probe_white.evaluate(s_w));
    let cp_b = to_cp(&p_b, s_b, probe_black.evaluate(s_b));
    println!("White to move: {} cp", cp_w);
    println!("Black to move: {} cp", cp_b);
}

#[test]
fn incremental_incremental_update_test() {
    let nets = load_networks();
    let (start, _) = parse_probe_fen("rnbqkbnr/pppppppp/8/8/8/8/PPPPPPPP/RNBQKBNR w KQkq - 0 1");
    let inc_cp = {
        let mut inc = NNUEProbe::from_networks(&nets);
        inc.set_position(&start, 0);
        inc.update(&[(Piece::WhitePawn, 12)], &[(Piece::WhitePawn, 28)]);
        let inc_internal = inc.evaluate(Color::Black);
        to_cp(&start, Color::Black, inc_internal)
    };
    let (moved, moved_side) = parse_probe_fen("rnbqkbnr/pppppppp/8/8/4P3/8/PPPP1PPP/RNBQKBNR b KQkq - 0 1");
    let full_cp = {
        let mut full = NNUEProbe::from_networks(&nets);
        full.set_position(&moved, 0);
        let full_internal = full.evaluate(Color::Black);
        to_cp(&moved, moved_side, full_internal)
    };
    let diff = (inc_cp - full_cp).abs();
    assert!(diff == 0, "Incremental should match full within 5 cp (diff={})", diff);
}

#[test]
fn incremental_incremental_add_piece_test() {
    let nets = load_networks();
    let (empty, _) = parse_probe_fen("6k1/8/8/8/8/8/8/3K4 w - - 0 1");
    let inc_cp = {
        let mut inc = NNUEProbe::from_networks(&nets);
        inc.set_position(&empty, 0);
        inc.update(&[], &[(Piece::WhitePawn, 8)]);
        inc.update(&[], &[(Piece::WhitePawn, 9)]);
        let inc_internal = inc.evaluate(Color::White);
        to_cp(&empty, Color::White, inc_internal)
    };
    let (pawn, side) = parse_probe_fen("6k1/8/8/8/8/8/PP6/3K4 w - - 0 1");
    let full_cp = {
        let mut full = NNUEProbe::from_networks(&nets);
        full.set_position(&pawn, 0);
        let full_internal = full.evaluate(Color::White);
        to_cp(&pawn, side, full_internal)
    };
    let diff = (inc_cp - full_cp).abs();
    assert!(diff == 0, "Should be close (diff={})", diff);
}

fn probe_cp(nets: &NnueNetworks, fen: &str) -> i32 {
    let mut p = NNUEProbe::from_networks(nets);
    let (pieces, side) = parse_probe_fen(fen);
    p.set_position(&pieces, 0);
    let internal = p.evaluate(side);
    to_cp(&pieces, side, internal)
}

const STOCKFISH_POSITIONS: [(&str, &str); 4] = [
    ("rnbqkbnr/pppppppp/8/8/8/8/PPPPPPPP/RNBQKBNR w KQkq - 0 1", "Startpos"),
    ("rnbqkbnr/pppppppp/8/8/4P3/8/PPPP1PPP/RNBQKBNR b KQkq - 0 1", "e4"),
    ("r1bqkb1r/pppp1ppp/2n2n2/3Pp3/4P3/2N2N2/PPP2PPP/R1BQKB1R b KQkq - 0 1", "QGA"),
    ("r1bq1rk1/ppp1npbp/2np2p1/4p3/2P4N/2NP2P1/PP2PPBP/R1BQ1RK1 w - - 0 1", "Middlegame"),
];

#[test]
fn manual_verify_vs_stockfish() {
    let nets = load_networks();
    for (fen, name) in STOCKFISH_POSITIONS {
        let score = probe_cp(&nets, fen);
        println!("{}: {} cp (white perspective)", name, score);
    }
}

#[test]
fn tests_verify_vs_stockfish() {
    println!("\n=== Compare with Stockfish: stockfish -> position fen <FEN> -> eval ===\n");
    let nets = load_networks();
    for (fen, name) in STOCKFISH_POSITIONS {
        let score = probe_cp(&nets, fen);
        println!("{}: {} cp (white perspective)", name, score);
    }
    println!("\nCompare these with Stockfish 'Final evaluation' values.");
}

#[test]
fn make_and_unmake_restore_the_evaluation() {
    let nets = load_networks();
    let (pieces, side) = parse_probe_fen("rnbqkbnr/pppppppp/8/8/8/8/PPPPPPPP/RNBQKBNR w KQkq - 0 1");
    let mut probe = NNUEProbe::from_networks(&nets);
    probe.set_position(&pieces, 0);
    let before = probe.evaluate(side);
    probe.make_move(12, 28, Piece::WhitePawn);
    let (moved, moved_side) = parse_probe_fen("rnbqkbnr/pppppppp/8/8/4P3/8/PPPP1PPP/RNBQKBNR b KQkq - 0 1");
    let mut full = NNUEProbe::from_networks(&nets);
    full.set_position(&moved, 0);
    assert_eq!(probe.evaluate(moved_side), full.evaluate(moved_side));
    probe.unmake_move(12, 28, Piece::WhitePawn, None);
    assert_eq!(probe.evaluate(side), before);
}

#[test]
fn capture_then_take_back_restores_score_and_clock() {
    let nets = load_networks();
    let (pieces, side) = parse_probe_fen("4k3/8/8/3p4/4P3/8/8/4K3 w - - 0 1");
    let mut probe = NNUEProbe::from_networks(&nets);
    probe.set_position(&pieces, 9);
    let before = probe.evaluate(side);
    probe.make_move(28, 35, Piece::WhitePawn);
    assert_eq!(probe.rule50(), 0);
    let (after, after_side) = parse_probe_fen("4k3/8/8/3P4/8/8/8/4K3 b - - 0 1");
    let mut full = NNUEProbe::from_networks(&nets);
    full.set_position(&after, 0);
    assert_eq!(probe.evaluate(after_side), full.evaluate(after_side));
    probe.unmake_move(28, 35, Piece::WhitePawn, Some(Piece::BlackPawn));
    assert_eq!(probe.rule50(), 9);
    assert_eq!(probe.evaluate(side), before);
    // A quiet king move counts the clock on, and taking it back restores it.
    probe.make_move(4, 5, Piece::WhiteKing);
    assert_eq!(probe.rule50(), 10);
    probe.unmake_move(4, 5, Piece::WhiteKing, None);
    assert_eq!(probe.rule50(), 9);
    assert_eq!(probe.evaluate(side), before);
}
