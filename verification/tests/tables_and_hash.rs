use chess_engine::piece::{Color, Piece};
use chess_engine::piece_square_table::{Phase, PieceSquareTable};
use chess_engine::square::Square;
use chess_engine::zobrist::ZobristHasher;

#[test]
fn test_piece_square_table_creation() {
    let pst = PieceSquareTable::new();
    assert_eq!(pst.openings.len(), 6);
    assert_eq!(pst.endgames.len(), 6);
}

#[test]
fn test_piece_square_table_values() {
    let pst = PieceSquareTable::new();

    assert_eq!(pst.get_value(Phase::Opening, Piece::WPawn, Square::A2), 50);
    assert_eq!(pst.get_value(Phase::Opening, Piece::BPawn, Square::A7), 50);
    assert_eq!(pst.get_value(Phase::Endgame, Piece::WKing, Square::E4), 40);
    assert_eq!(pst.get_value(Phase::Endgame, Piece::BKing, Square::E5), 40);
}

#[test]
fn test_zobrist_initialization() {
    let hasher = ZobristHasher::new();
    assert_ne!(hasher.turn, 0);
    assert!(hasher.pieces.iter().all(|&x| x != 0));
    assert!(hasher.pawns.iter().all(|&x| x != 0));
    assert!(hasher.en_passant.iter().all(|&x| x != 0));
    assert!(hasher.castling_rights.iter().all(|&x| x != 0));
}

#[test]
fn test_hash_consistency() {
    let hasher = ZobristHasher::new();
    let board = [None; 64];
    let hash1 = hasher.init_hash(&board, Color::White, None, 0);
    let hash2 = hasher.init_hash(&board, Color::White, None, 0);
    assert_eq!(hash1, hash2);
}

#[test]
fn test_hash_difference() {
    let hasher = ZobristHasher::new();
    let mut board1 = [None; 64];
    let mut board2 = [None; 64];
    board1[0] = Some(Piece::WPawn);
    board2[0] = Some(Piece::BPawn);

    let hash1 = hasher.init_hash(&board1, Color::White, None, 0);
    let hash2 = hasher.init_hash(&board2, Color::White, None, 0);
    assert_ne!(hash1, hash2);
}

#[test]
fn hash_is_the_xor_of_its_keys() {
    let hasher = ZobristHasher::new();
    let mut board = [None; 64];
    board[12] = Some(Piece::WPawn);
    board[60] = Some(Piece::BKing);
    let expected = hasher.pieces[12]
        ^ hasher.pieces[64 * 11 + 60]
        ^ hasher.turn
        ^ hasher.en_passant[4]
        ^ hasher.castling_rights[0]
        ^ hasher.castling_rights[3];
    assert_eq!(hasher.init_hash(&board, Color::White, Some(Square::E3), 0b1001), expected);
    assert_eq!(
        hasher.init_hash(&board, Color::Black, Some(Square::E3), 0b1001),
        expected ^ hasher.turn
    );
    assert_eq!(hasher.init_hash_pawns(&board), hasher.pawns[12]);
}

#[test]
fn incremental_updates_mix_in_the_right_keys() {
    let hasher = ZobristHasher::new();
    let mut h = 7u64;
    let mut ph = 9u64;
    hasher.update_zobrist_hash_move(&mut h, &mut ph, Piece::BPawn, Square::E7, Square::E5);
    assert_eq!(h, 7 ^ hasher.pieces[64 * 6 + 52] ^ hasher.pieces[64 * 6 + 36]);
    assert_eq!(ph, 9 ^ hasher.pawns[64 + 52] ^ hasher.pawns[64 + 36]);

    let mut h = 7u64;
    let mut ph = 9u64;
    hasher.update_zobrist_hash_capture(&mut h, &mut ph, Piece::WKnight, Square::C3);
    assert_eq!(h, 7 ^ hasher.pieces[64 + 18]);
    assert_eq!(ph, 9);

    let mut h = 7u64;
    let mut ph = 9u64;
    hasher.update_zobrist_hash_promotion(&mut h, &mut ph, Piece::WPawn, Piece::WQueen, Square::A8);
    assert_eq!(h, 7 ^ hasher.pieces[56] ^ hasher.pieces[64 * 4 + 56]);
    assert_eq!(ph, 9 ^ hasher.pawns[56]);

    let mut h = 7u64;
    hasher.update_zobrist_hash_en_passant(&mut h, Some(Square::D6), Some(Square::A3));
    assert_eq!(h, 7 ^ hasher.en_passant[3] ^ hasher.en_passant[0]);

    let mut h = 7u64;
    hasher.update_zobrist_hash_castling(&mut h, 0b1111, 0b1100);
    assert_eq!(h, 7 ^ hasher.castling_rights[0] ^ hasher.castling_rights[1]);

    let mut h = 7u64;
    hasher.update_zobrist_hash_side(&mut h);
    assert_eq!(h, 7 ^ hasher.turn);
}
