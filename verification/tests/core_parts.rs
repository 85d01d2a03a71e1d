use oopsmate::accumulator::Accumulator;
use oopsmate::delta::DeltaChange;
use oopsmate::loader::{
    read_i32, read_i32_array, read_i8_array, read_leb128_i16, read_leb128_i16_checked, read_leb128_i32, read_u32,
    ByteReader, LoadError,
};
use oopsmate::uci::{calculate_material, calculate_material_from_pieces};
use oopsmate::{DeltaError, MoveDelta, Piece, OUTPUT_SCALE, VERSION, WEIGHT_SCALE_BITS};

#[test]
fn test_accumulator_new() {
    let acc = Accumulator::<128>::new();
    assert_eq!(acc.accumulation[0].len(), 128);
    assert_eq!(acc.accumulation[1].len(), 128);
    assert_eq!(acc.computed, [false, false]);
}

#[test]
fn constants() {
    assert_eq!(VERSION, 0x7AF32F20);
    assert_eq!(OUTPUT_SCALE, 16);
    assert_eq!(WEIGHT_SCALE_BITS, 6);
}

#[test]
fn little_endian_reads() {
    let mut r = ByteReader::new(vec![0x20, 0x2F, 0xF3, 0x7A, 0xFF, 0xFF, 0xFF, 0xFF, 1]);
    assert_eq!(read_u32(&mut r), Ok(0x7AF32F20));
    assert_eq!(read_i32(&mut r), Ok(-1));
    assert_eq!(r.position(), 8);
    assert_eq!(read_u32(&mut r), Err(LoadError::UnexpectedEof));
    assert_eq!(r.remaining(), 1);
    let mut r = ByteReader::new(vec![1, 0, 0, 0, 0xFE, 0xFF, 0xFF, 0xFF, 0x80, 0x7F]);
    assert_eq!(read_i32_array(&mut r, 2), Ok(vec![1, -2]));
    assert_eq!(read_i8_array(&mut r, 2), Ok(vec![-128, 127]));
    assert_eq!(read_i8_array(&mut r, 1), Err(LoadError::UnexpectedEof));
}

fn block(magic: bool, payload: &[u8]) -> Vec<u8> {
    let mut out = Vec::new();
    if magic {
        out.extend_from_slice(b"COMPRESSED_LEB128");
    }
    out.extend_from_slice(&(payload.len() as u32).to_le_bytes());
    out.extend_from_slice(payload);
    out
}

#[test]
fn leb128_blocks() {
    // 5, -1, 64 (two bytes), -200 (two bytes), 300 (two bytes)
    let payload = [0x05, 0x7F, 0xC0, 0x00, 0xB8, 0x7E, 0xAC, 0x02];
    let mut r = ByteReader::new(block(true, &payload));
    assert_eq!(read_leb128_i16(&mut r, 5), Ok(vec![5, -1, 64, -200, 300]));
    let mut r = ByteReader::new(block(false, &payload));
    assert_eq!(read_leb128_i16_checked(&mut r, 3, false), Ok(vec![5, -1, 64]));
    let mut r = ByteReader::new(block(true, &[0x80, 0x80, 0x80, 0x80, 0x78]));
    assert_eq!(read_leb128_i32(&mut r, 1), Ok(vec![i32::MIN]));
    let mut r = ByteReader::new(block(true, &payload));
    assert_eq!(read_leb128_i16(&mut r, 6), Err(LoadError::UnexpectedEof));
    let mut bad = block(true, &payload);
    bad[0] = b'X';
    let mut r = ByteReader::new(bad);
    assert_eq!(read_leb128_i16(&mut r, 1), Err(LoadError::InvalidData));
    let mut r = ByteReader::new(block(true, &[0x05]));
    assert_eq!(read_leb128_i32(&mut r, 0), Ok(vec![]));
    let mut r = ByteReader::new(vec![1, 2]);
    assert_eq!(read_leb128_i16_checked(&mut r, 1, false), Err(LoadError::UnexpectedEof));
}

#[test]
fn delta_building() {
    let mut d = MoveDelta::new(5);
    assert!(d.is_empty());
    assert_eq!(d.next_rule50(), 5);
    assert_eq!(d.push_removal(3, Piece::NoPiece), Err(DeltaError::EmptyChange));
    assert_eq!(d.push_move(12, 28, Piece::WhitePawn, Piece::WhitePawn), Ok(()));
    assert_eq!(d.push_addition(40, Piece::BlackKnight), Ok(()));
    assert_eq!(d.push_removal(41, Piece::BlackPawn), Ok(()));
    assert_eq!(d.len(), 3);
    assert_eq!(d.push_removal(42, Piece::BlackPawn), Err(DeltaError::TooManyChanges));
    assert_eq!(d.changes()[1], DeltaChange::addition(40, Piece::BlackKnight));
    assert_eq!(d.changes()[0].from, 12);
    d.set_next_rule50(0);
    assert_eq!(d.next_rule50(), 0);
    assert!(DeltaChange::new(1, 1, Piece::NoPiece, Piece::NoPiece).is_empty());
    assert_eq!(DeltaError::EmptyChange.message(), "delta change must modify at least one piece");
    assert_eq!(DeltaError::TooManyChanges.message(), "move delta exceeds the 3-change limit");
    assert!(MoveDelta::null(3).is_empty());
}

#[test]
fn material_points() {
    let pieces = [(0usize, 1usize, 0usize), (1, 2, 1), (2, 3, 0), (3, 4, 1), (4, 5, 0), (5, 6, 1)];
    assert_eq!(calculate_material(&pieces), 1 + 3 + 3 + 5 + 9);
    let pieces = [(Piece::WhiteQueen, 3usize), (Piece::BlackRook, 56), (Piece::BlackKing, 60), (Piece::WhitePawn, 8)];
    assert_eq!(calculate_material_from_pieces(&pieces), 9 + 5 + 1);
}

#[test]
fn probe_refuses_short_network_files() {
    assert!(oopsmate::NNUEProbe::new(vec![1, 2, 3], vec![]).is_err());
    let mut bad_version = 0x7AF32F21u32.to_le_bytes().to_vec();
    bad_version.extend_from_slice(&[0u8; 40]);
    assert!(matches!(oopsmate::NnueNetworks::new(bad_version, vec![]), Err(LoadError::InvalidData)));
}

#[test]
fn network_files_with_a_wrong_magic_string_are_invalid_data() {
    assert!(matches!(oopsmate::NnueNetworks::new(vec![1, 2, 3], vec![]), Err(LoadError::UnexpectedEof)));
    let mut bad_magic = VERSION.to_le_bytes().to_vec();
    bad_magic.extend_from_slice(&[0u8; 4]);
    bad_magic.extend_from_slice(&3u32.to_le_bytes());
    bad_magic.extend_from_slice(b"abc");
    bad_magic.extend_from_slice(&[0u8; 4]);
    bad_magic.extend_from_slice(b"COMPRESSED_LEB129");
    bad_magic.extend_from_slice(&[0u8; 16]);
    assert!(matches!(oopsmate::NnueNetworks::new(bad_magic.clone(), vec![]), Err(LoadError::InvalidData)));
    assert!(matches!(oopsmate::NNUEProbe::new(bad_magic, vec![]), Err(LoadError::InvalidData)));
    let mut cut_header = VERSION.to_le_bytes().to_vec();
    cut_header.extend_from_slice(&[0u8; 4]);
    cut_header.extend_from_slice(&100u32.to_le_bytes());
    cut_header.extend_from_slice(&[0u8; 20]);
    assert!(matches!(oopsmate::NnueNetworks::new(cut_header, vec![]), Err(LoadError::UnexpectedEof)));
}

#[test]
fn a_fourth_dirty_change_is_ignored() {
    let mut dp = oopsmate::accumulator_stack::DirtyPiece::new();
    dp.add_change(1, 2, 3, 4);
    dp.add_change(5, 6, 7, 8);
    dp.add_change(9, 10, 11, 12);
    dp.add_change(13, 14, 15, 1);
    assert_eq!(dp.dirty_num, 3);
    assert_eq!(dp.from, [1, 5, 9]);
    assert_eq!(dp.piece_to, [4, 8, 12]);
}
