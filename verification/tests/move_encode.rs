use chess_engine::move_encode::Move;
use chess_engine::piece::Piece;
use chess_engine::square::Square;

#[test]
fn test_move_creation() {
    let m = Move::new(Square::E2, Square::E4, Piece::WPawn, None, None, true, false, false);
    assert_eq!(m.get_from(), Square::E2);
    assert_eq!(m.get_to(), Square::E4);
    assert_eq!(m.get_piece(), Piece::WPawn);
    assert_eq!(m.is_double_pawn_push(), true);
}

#[test]
fn test_move_flags() {
    let m = Move::new(Square::E1, Square::G1, Piece::WKing, None, None, false, false, true);
    assert_eq!(m.is_castling(), true);
    assert_eq!(m.is_quiet(), true);
}

#[test]
fn test_move_capture() {
    let m = Move::new(Square::E4, Square::D5, Piece::WPawn, Some(Piece::BPawn), None, false, true, false);
    assert_eq!(m.is_capture(), true);
    assert_eq!(m.is_en_passant(), true);
    assert_eq!(m.get_capture(), Some(Piece::BPawn));
}

#[test]
fn test_move_promotion() {
    let m = Move::new(Square::E7, Square::E8, Piece::WPawn, None, Some(Piece::WQueen), false, false, false);
    assert_eq!(m.is_promotion(), true);
    assert_eq!(m.get_promotion(), Some(Piece::WQueen));
}

#[test]
fn move_bit_layout() {
    let m = Move::new(
        Square::H8,
        Square::A1,
        Piece::BKing,
        Some(Piece::WQueen),
        Some(Piece::BKnight),
        true,
        true,
        true,
    );
    assert_eq!(m.0, 63 | (0 << 6) | (11 << 12) | (4 << 16) | (7 << 20) | (1 << 24) | (1 << 25) | (1 << 26));
    let quiet = Move::new(Square::B1, Square::C3, Piece::WKnight, None, None, false, false, false);
    assert_eq!(quiet.0, 1 | (18 << 6) | (1 << 12) | (12 << 16) | (12 << 20));
    assert_eq!(quiet.get_capture(), None);
    assert_eq!(quiet.get_promotion(), None);
    assert!(!quiet.is_capture());
    assert!(!quiet.is_promotion());
    assert!(!quiet.is_castling());
    assert!(!quiet.is_en_passant());
    assert!(!quiet.is_double_pawn_push());
}

#[test]
fn move_text() {
    let m = Move::new(Square::E7, Square::E8, Piece::WPawn, None, Some(Piece::WQueen), false, false, false);
    assert_eq!(m.to_string(), "e7e8q");
    let m = Move::new(Square::A2, Square::A1, Piece::BPawn, None, Some(Piece::BKnight), false, false, false);
    assert_eq!(m.to_string(), "a2a1n");
    let m = Move::new(Square::E2, Square::E4, Piece::WPawn, None, None, true, false, false);
    assert_eq!(m.to_string(), "e2e4");
}

#[test]
fn move_ordering_score() {
    // Pawn takes queen: ten times the victim less the attacker, the table gain from e4
    // to d5, three ranks of advance on a central file.
    let m = Move::new(Square::E4, Square::D5, Piece::WPawn, Some(Piece::BQueen), None, false, false, false);
    assert_eq!(m.get_score(), 9000 - 100 + (20 - 25) + 40 + 10);
    // Castling: bonus, table gain of the king from e1 to g1, castled king, no pawn.
    let c = Move::new(Square::E1, Square::G1, Piece::WKing, None, None, false, false, true);
    assert_eq!(c.get_score(), 500 + (30 - 0) + 50 - 10);
    // Promotion to a queen on a8 from a7.
    let p = Move::new(Square::A7, Square::A8, Piece::WPawn, None, Some(Piece::WQueen), false, false, false);
    assert_eq!(p.get_score(), 9000 + (0 - 5) + 70);
}
