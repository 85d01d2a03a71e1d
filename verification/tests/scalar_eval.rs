use oopsmate::aligned::AlignedBuffer;
use oopsmate::feature_transformer::FeatureTransformer;
use oopsmate::features::{king_bucket_of, make_index, orient_mask, FEATURE_DIMS};
use oopsmate::loader::LoadError;
use oopsmate::scalar::accumulator::Accumulator;
use oopsmate::scalar::evaluate::{calculate_material, count_material, evaluate_position_internal, king_squares};
use oopsmate::scalar::features::explain_feature;
use oopsmate::scalar::fen::parse_fen;
use oopsmate::scalar::layers::{affine_forward, clipped_relu, sparse_affine_forward, sqr_clipped_relu, transform_features};
use oopsmate::scalar::network::{AffineLayer, Network, SMALL_HALF_DIMS};
use oopsmate::scalar::types::{piece_value, square_from_name, square_name, Piece};
use oopsmate::{Color, VERSION};

const START: &str = "rnbqkbnr/pppppppp/8/8/8/8/PPPPPPPP/RNBQKBNR w KQkq - 0 1";

#[test]
fn fen_start_position() {
    let (pieces, side, rule50) = parse_fen(START);
    assert_eq!(pieces.len(), 32);
    assert_eq!(side, Color::White);
    assert_eq!(rule50, 0);
    assert_eq!(pieces[0], (Piece::BlackRook, 56));
    assert_eq!(pieces[4], (Piece::BlackKing, 60));
    assert_eq!(pieces[8], (Piece::BlackPawn, 48));
    assert_eq!(pieces[16], (Piece::WhitePawn, 8));
    assert_eq!(pieces[28], (Piece::WhiteKing, 4));
    assert_eq!(pieces[31], (Piece::WhiteRook, 7));
}

#[test]
fn fen_side_and_clock_fields() {
    let (_, side, rule50) = parse_fen("4k3/8/8/8/8/8/8/4K3 b - - 12 40");
    assert_eq!((side, rule50), (Color::Black, 12));
    let (pieces, side, rule50) = parse_fen("8/8/8/8/8/8/8/8");
    assert!(pieces.is_empty());
    assert_eq!((side, rule50), (Color::White, 0));
    assert_eq!(parse_fen("8/8/8/8/8/8/8/8 x - - +7 1").2, 7);
    assert_eq!(parse_fen("8/8/8/8/8/8/8/8 w - - -3 1").2, -3);
    assert_eq!(parse_fen("8/8/8/8/8/8/8/8 w - - 2147483647 1").2, 2147483647);
    assert_eq!(parse_fen("8/8/8/8/8/8/8/8 w - - 2147483648 1").2, 0);
    assert_eq!(parse_fen("8/8/8/8/8/8/8/8 w - - 1x 1").2, 0);
    assert_eq!(parse_fen("8/8/8/8/8/8/8/8 w - - - 1").2, 0);
    assert_eq!(parse_fen("8/8/8/8/8/8/8/8 white").1, Color::Black);
    let (pieces, side, rule50) = parse_fen("  \t4k3/8/8/8/8/8/8/R3K3   w  -  -  9  3 ");
    assert_eq!(pieces, vec![(Piece::BlackKing, 60), (Piece::WhiteRook, 0), (Piece::WhiteKing, 4)]);
    assert_eq!((side, rule50), (Color::White, 9));
}

#[test]
fn fen_unknown_letters_take_a_square() {
    let (pieces, _, _) = parse_fen("x7/8/8/8/8/8/8/K7 w - - 0 1");
    assert_eq!(pieces, vec![(Piece::WhiteKing, 0)]);
    let (pieces, _, _) = parse_fen("xk6/8/8/8/8/8/8/8 w - - 0 1");
    assert_eq!(pieces, vec![(Piece::BlackKing, 57)]);
}

#[test]
fn piece_properties() {
    assert_eq!(Piece::WhiteKnight.piece_type(), 2);
    assert_eq!(Piece::BlackKing.piece_type(), 6);
    assert_eq!(Piece::NoPiece.piece_type(), 0);
    assert_eq!(Piece::BlackQueen.color(), Some(Color::Black));
    assert_eq!(Piece::NoPiece.color(), None);
    assert!(Piece::WhiteKing.is_king());
    assert!(!Piece::WhiteQueen.is_king());
    assert_eq!(Piece::WhitePawn.stockfish_code(), 1);
    assert_eq!(Piece::BlackPawn.stockfish_code(), 9);
    assert_eq!(Piece::BlackKing.stockfish_code(), 14);
    assert_eq!(Piece::BlackBishop.index(), 7);
    assert_eq!(Piece::WhiteKing.index(), 10);
    assert_eq!(Piece::BlackKing.index(), 10);
    assert_eq!(Piece::WhiteKnight.name(), "White Knight");
    assert_eq!(Piece::NoPiece.name(), "None");
    assert_eq!(Piece::BlackRook.symbol(), 'r');
    assert_eq!(Piece::NoPiece.symbol(), '.');
    assert_eq!(piece_value(Piece::WhiteQueen), 2538);
    assert_eq!(piece_value(Piece::BlackPawn), 208);
    assert_eq!(piece_value(Piece::WhiteKing), 0);
}

#[test]
fn square_names() {
    assert_eq!(square_name(0), "a1");
    assert_eq!(square_name(28), "e4");
    assert_eq!(square_name(63), "h8");
    assert_eq!(square_from_name("e4"), Some(28));
    assert_eq!(square_from_name("h8"), Some(63));
    assert_eq!(square_from_name("i1"), None);
    assert_eq!(square_from_name("a9"), None);
    assert_eq!(square_from_name("e"), None);
    assert_eq!(square_from_name("e44"), None);
}

#[test]
fn feature_explanation_text() {
    let text = explain_feature(1, 12, Piece::WhitePawn, 60);
    let o = orient_mask(1, 60);
    let expected = format!(
        "  Black perspective: P on e2 (king on e8) → orient={}, sq'={}, ksq'=e8, bucket={}, index={}",
        o,
        square_name(12 ^ o),
        king_bucket_of(1, 60),
        make_index(1, 12, 1, 60)
    );
    assert_eq!(text, expected);
    assert!(explain_feature(0, 4, Piece::WhiteKing, 4).starts_with("  White perspective: K on e1 (king on e1)"));
}

#[test]
fn material_counts() {
    let (pieces, _, _) = parse_fen(START);
    let (pawns, officers) = count_material(&pieces);
    assert_eq!(pawns, [8, 8]);
    assert_eq!(officers, [2 * 781 + 2 * 825 + 2 * 1276 + 2538; 2]);
    assert_eq!(calculate_material(&pieces), 2 * (8 + 6 + 6 + 10 + 9));
    assert_eq!(king_squares(&pieces), [4, 60]);
    assert_eq!(king_squares(&[]), [0, 0]);
    let (pieces, _, _) = parse_fen("k7/8/8/8/8/8/8/K6K w - - 0 1");
    assert_eq!(king_squares(&pieces), [7, 56]);
}

#[test]
fn activations() {
    let input = [-100, 0, 64, 130, 8191, 100000];
    let mut out = [0u8; 6];
    clipped_relu(&input, &mut out);
    assert_eq!(out, [0, 0, 1, 2, 127, 127]);
    let input = [-1000, 0, 724, 1000, 20000];
    let mut out = [0u8; 5];
    sqr_clipped_relu(&input, &mut out);
    assert_eq!(out, [1, 0, 0, 1, 127]);
}

fn layer(input_dims: usize, output_dims: usize, biases: Vec<i32>, weight: impl Fn(usize, usize) -> i8) -> AffineLayer {
    let padded = (input_dims + 31) / 32 * 32;
    let mut weights = vec![0i8; output_dims * padded];
    for r in 0..output_dims {
        for c in 0..input_dims {
            weights[r * padded + c] = weight(r, c);
        }
    }
    AffineLayer { input_dims, output_dims, biases, weights, padded_input_dims: padded }
}

#[test]
fn dense_layer_rows() {
    let l = layer(3, 2, vec![10, -5], |r, c| if r == 0 { (c + 1) as i8 } else { -((2 * c) as i8) });
    let input = [1u8, 2, 3, 99];
    let mut out = [7i32; 3];
    affine_forward(&l, &input, &mut out);
    assert_eq!(out, [10 + 1 + 4 + 9, -5 - 4 - 12, 7]);
    let mut out2 = [0i32; 2];
    sparse_affine_forward(&l, &input[..2], &mut out2);
    assert_eq!(out2, [10 + 1 + 4, -5 - 4]);
}

#[test]
fn transform_reorders_blocks() {
    let half = 64;
    let mut white = vec![0i16; half];
    let mut black = vec![0i16; half];
    for j in 0..32 {
        white[j] = j as i16 + 1;
        white[j + 32] = 512 / 8;
        black[j] = 300;
        black[j + 32] = -4;
    }
    let acc = [white, black];
    let mut out = vec![200u8; 70];
    transform_features(&acc, 0, &mut out);
    let natural: Vec<u8> = (0..32).map(|j| ((j + 1) * 64 / 512) as u8).chain((0..32).map(|_| 0u8)).collect();
    for block in [0usize, 32] {
        for q in 0..32 {
            let src = if (8..16).contains(&q) { q + 8 } else if (16..24).contains(&q) { q - 8 } else { q };
            assert_eq!(out[block + q], natural[block + src]);
        }
    }
    assert_eq!(&out[64..], &[200u8; 6]);
    let mut out_black = vec![0u8; 64];
    transform_features(&acc, 1, &mut out_black);
    assert_eq!(out_black[32], 0);
    assert_eq!(out_black[40], natural[16]);
}

fn small_transformer(half: usize) -> FeatureTransformer {
    let biases: Vec<i16> = (0..half).map(|j| (j as i16) - 10).collect();
    let weights: Vec<i16> = (0..half * FEATURE_DIMS).map(|i| ((i * 7 + i / 97) % 23) as i16 - 11).collect();
    let psqt: Vec<i32> = (0..8 * FEATURE_DIMS).map(|i| ((i * 13) % 401) as i32 - 200).collect();
    FeatureTransformer {
        input_dims: FEATURE_DIMS,
        half_dims: half,
        biases: AlignedBuffer::from_vec(biases),
        weights: AlignedBuffer::from_vec(weights),
        psqt_weights: AlignedBuffer::from_vec(psqt),
    }
}

#[test]
fn accumulator_refresh_sums_features() {
    let half = 64;
    let ft = small_transformer(half);
    let mut acc = Accumulator::new(half);
    assert_eq!(acc.accumulation[0], vec![0i16; half]);
    assert_eq!(acc.psqt_accumulation, [[0; 8]; 2]);
    let (pieces, _, _) = parse_fen(START);
    let ksq = [4usize, 60usize];
    acc.refresh(&pieces, ksq, &ft);
    for p in 0..2 {
        for j in [0usize, 17, 63] {
            let mut sum = ft.biases.data[j] as i32;
            for (piece, sq) in &pieces {
                let f = make_index(p, *sq, piece.stockfish_code(), ksq[p]);
                sum += ft.weights.data[f * half + j] as i32;
            }
            assert_eq!(acc.accumulation[p][j] as i32, sum);
        }
        for b in 0..8 {
            let mut sum = 0i32;
            for (piece, sq) in &pieces {
                let f = make_index(p, *sq, piece.stockfish_code(), ksq[p]);
                sum += ft.psqt_weights.data[f * 8 + b];
            }
            assert_eq!(acc.psqt_accumulation[p][b], sum);
        }
    }
}

/// A network of accumulator width `half` with the given transformer and all layers zero.
fn quiet_network(ft: FeatureTransformer) -> Network {
    let half = ft.half_dims;
    let mut fc_0 = Vec::new();
    let mut fc_1 = Vec::new();
    let mut fc_2 = Vec::new();
    for _ in 0..8 {
        fc_0.push(layer(half, 16, vec![0; 16], |_, _| 0));
        fc_1.push(layer(30, 32, vec![0; 32], |_, _| 0));
        fc_2.push(layer(32, 1, vec![0; 1], |_, _| 0));
    }
    Network { feature_transformer: ft, fc_0, fc_1, fc_2 }
}

#[test]
fn evaluation_of_a_psqt_only_network() {
    let half = 64;
    let net = quiet_network(small_transformer(half));
    let (pieces, side, rule50) = parse_fen("4k3/8/8/8/8/8/3P4/4K3 b - - 10 1");
    let (psqt, positional, score) = evaluate_position_internal(&net, &net, &pieces, side, rule50);
    let mut acc = Accumulator::new(half);
    acc.refresh(&pieces, [4, 60], &net.feature_transformer);
    let bucket = (pieces.len() - 1) / 4;
    let expected_psqt = (acc.psqt_accumulation[1][bucket] - acc.psqt_accumulation[0][bucket]) / 2 / 16;
    assert_eq!(psqt, expected_psqt);
    assert_eq!(positional, 0);
    let nnue = (125 * psqt) / 128;
    let v = nnue - nnue * psqt.abs() / 18000;
    let material = 535 + 0;
    let scaled = v * (77777 + material) / 77777;
    let damped = scaled - scaled * rule50 / 212;
    assert_eq!(score, damped.clamp(-31753, 31753));
}

fn leb_i(out: &mut Vec<u8>, mut v: i64) {
    loop {
        let byte = (v & 0x7f) as u8;
        v >>= 7;
        let done = (v == 0 && byte & 0x40 == 0) || (v == -1 && byte & 0x40 != 0);
        out.push(if done { byte } else { byte | 0x80 });
        if done {
            break;
        }
    }
}

fn leb_block(out: &mut Vec<u8>, magic: bool, values: &[i64]) {
    if magic {
        out.extend_from_slice(b"COMPRESSED_LEB128");
    }
    let mut payload = Vec::new();
    for &v in values {
        leb_i(&mut payload, v);
    }
    out.extend_from_slice(&(payload.len() as u32).to_le_bytes());
    out.extend_from_slice(&payload);
}

/// The bytes of a network file of accumulator width `half`.
fn network_bytes(half: usize) -> Vec<u8> {
    let mut out = Vec::new();
    out.extend_from_slice(&VERSION.to_le_bytes());
    out.extend_from_slice(&7u32.to_le_bytes());
    out.extend_from_slice(&5u32.to_le_bytes());
    out.extend_from_slice(b"tests");
    out.extend_from_slice(&9u32.to_le_bytes());
    out.extend_from_slice(b"COMPRESSED_LEB128");
    let biases: Vec<i64> = (0..half as i64).map(|j| j - 30).collect();
    leb_block(&mut out, false, &biases);
    let weights: Vec<i64> = (0..(half * FEATURE_DIMS) as i64).map(|i| (i % 9) - 4).collect();
    leb_block(&mut out, true, &weights);
    let psqt: Vec<i64> = (0..(8 * FEATURE_DIMS) as i64).map(|i| (i % 1001) - 500).collect();
    leb_block(&mut out, true, &psqt);
    for stack in 0..8u32 {
        out.extend_from_slice(&stack.to_le_bytes());
        for layer in [(half, 16usize), (30, 32), (32, 1)] {
            let padded = (layer.0 + 31) / 32 * 32;
            for r in 0..layer.1 {
                out.extend_from_slice(&((r as i32) - 3).to_le_bytes());
            }
            for i in 0..layer.1 * padded {
                out.push((i % 5) as u8);
            }
        }
    }
    out
}

#[test]
fn network_loads_from_bytes() {
    let half = 64;
    let bytes = network_bytes(half);
    let net = Network::load(bytes.clone(), half).expect("network bytes");
    assert_eq!(net.feature_transformer.half_dims, half);
    assert_eq!(net.fc_0.len(), 8);
    assert_eq!(net.fc_0[3].biases, (0..16).map(|r| r - 3).collect::<Vec<i32>>());
    assert_eq!(net.fc_1[0].weights.len(), 32 * 32);
    assert_eq!(net.fc_1[0].weights[7], 2);
    assert_eq!(net.fc_2[5].biases, vec![-3]);
    // Biases come out block-permuted is a no-op below 128 values, then doubled.
    assert_eq!(net.feature_transformer.biases.data[0], -60);
    assert_eq!(net.feature_transformer.biases.data[63], 66);
    assert_eq!(net.feature_transformer.psqt_weights.data[1001], -500);
    let (pieces, side, rule50) = parse_fen(START);
    let (_, _, score) = evaluate_position_internal(&net, &net, &pieces, side, rule50);
    assert!((-31753..=31753).contains(&score));

    let mut bad_version = bytes.clone();
    bad_version[0] ^= 1;
    assert!(matches!(Network::load(bad_version, half), Err(LoadError::InvalidData)));
    let mut bad_magic = bytes.clone();
    bad_magic[4 + 4 + 4 + 5 + 4] = b'X';
    assert!(matches!(Network::load(bad_magic, half), Err(LoadError::InvalidData)));
    let truncated = bytes[..bytes.len() - 1].to_vec();
    assert!(matches!(Network::load(truncated, half), Err(LoadError::UnexpectedEof)));
    assert!(matches!(Network::load(vec![1, 2, 3], half), Err(LoadError::UnexpectedEof)));
    assert_eq!(SMALL_HALF_DIMS, 128);
}

#[test]
fn every_square_name_reads_back() {
    for sq in 0..64usize {
        let name = square_name(sq);
        assert_eq!(square_from_name(&name), Some(sq));
    }
    assert_eq!(square_name(28), "e4");
}

#[test]
fn piece_indices_stay_within_the_feature_blocks() {
    let pieces = [
        Piece::WhitePawn, Piece::WhiteKnight, Piece::WhiteBishop, Piece::WhiteRook, Piece::WhiteQueen, Piece::WhiteKing,
        Piece::BlackPawn, Piece::BlackKnight, Piece::BlackBishop, Piece::BlackRook, Piece::BlackQueen, Piece::BlackKing,
    ];
    for p in pieces {
        assert!(p.index() <= 10);
    }
    assert_eq!(Piece::BlackQueen.index(), 9);
}
