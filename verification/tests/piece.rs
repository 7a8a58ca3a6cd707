use chess_engine::piece::{CastlePerms, Color, Piece, PieceType};

#[test]
fn piece_from_char() {
    assert_eq!(Piece::from_char('P').is_ok(), true);
    assert_eq!(Piece::from_char('n').is_ok(), true);
    assert_eq!(Piece::from_char('Z').is_err(), true);
}

#[test]
fn piece_to_char() {
    assert_eq!(Piece::WRook.to_char(), 'R');
    assert_eq!(Piece::BBishop.to_char(), 'b');
}

#[test]
fn piece_to_fancy_char() {
    assert_eq!(Piece::WKnight.to_char_fancy(), '♞');
    assert_eq!(Piece::BPawn.to_char_fancy(), '♙');
}

#[test]
fn piece_get_color() {
    assert_eq!(Piece::WPawn.get_color(), Color::White);
    assert_eq!(Piece::BKing.get_color(), Color::Black);
}

#[test]
fn piece_is_same_color() {
    assert_eq!(Piece::WPawn.is_same_color(Piece::WRook), true);
    assert_eq!(Piece::WKing.is_same_color(Piece::BRook), false);
}

#[test]
fn piece_is_piece_type() {
    assert_eq!(Piece::WBishop.is_bishop(), true);
    assert_eq!(Piece::BQueen.is_queen(), true);
    assert_eq!(Piece::BPawn.is_pawn(), true);
    assert_eq!(Piece::WQueen.is_pawn(), false);
}

#[test]
fn piece_is_slider() {
    assert_eq!(Piece::WKing.is_slider(), false);
    assert_eq!(Piece::BRook.is_slider(), true);
    assert_eq!(Piece::WQueen.is_slider(), true);
}

#[test]
fn piece_values() {
    assert_eq!(Piece::WPawn.get_value(), 100);
    assert_eq!(Piece::BKnight.get_value(), 320);
    assert_eq!(Piece::WBishop.get_value(), 330);
    assert_eq!(Piece::BRook.get_value(), 500);
    assert_eq!(Piece::WQueen.get_value(), 900);
    assert_eq!(Piece::BKing.get_value(), 100000);
    assert_eq!(PieceType::Queen.get_value(), 900);
}

#[test]
fn piece_parts_and_indices() {
    for i in 0..12 {
        let p = Piece::from_index(i);
        assert_eq!(p.to_index(), i);
        assert_eq!(Piece::new(p.get_color(), p.get_type()), p);
        assert_eq!(Piece::from_char(p.to_char()), Ok(p));
    }
    assert_eq!(Piece::from_char(' '), Ok(Piece::Empty));
    assert_eq!(Piece::Empty.to_index(), 12);
    assert_eq!(PieceType::from_index(3), PieceType::Rook);
    assert_eq!(PieceType::King.to_index(), 5);
    assert!(Piece::WKnight.is_knight());
    assert!(Piece::BRook.is_rook());
    assert!(Piece::BKing.is_king());
    assert!(Piece::WRook.is_same_type(Piece::BRook));
    assert!(!Piece::WRook.is_same_type(Piece::BQueen));
}

#[test]
fn colors_and_rights() {
    assert_eq!(Color::White.opposite(), Color::Black);
    assert_eq!(Color::Black.opposite(), Color::White);
    assert_eq!(Color::White.to_index(), 0);
    assert_eq!(Color::Black.to_index(), 1);
    assert_eq!(Color::White.get_factor(), 1);
    assert_eq!(Color::Black.get_factor(), -1);
    assert_eq!(CastlePerms::WKC.mask(), 1);
    assert_eq!(CastlePerms::WQC.mask(), 2);
    assert_eq!(CastlePerms::BKC.mask(), 4);
    assert_eq!(CastlePerms::BQC.mask(), 8);
    assert_eq!(CastlePerms::of(Color::Black, false), CastlePerms::BQC);
}

#[test]
fn test_get_value() {
    assert_eq!(Piece::WPawn.get_value(), 100);
    assert_eq!(Piece::BPawn.get_value(), 100);
    assert_eq!(Piece::WBishop.get_value(), 330);
    assert_eq!(Piece::BBishop.get_value(), 330);
    assert_eq!(Piece::WKnight.get_value(), 320);
    assert_eq!(Piece::BKnight.get_value(), 320);
    assert_eq!(Piece::WRook.get_value(), 500);
    assert_eq!(Piece::BRook.get_value(), 500);
    assert_eq!(Piece::WQueen.get_value(), 900);
    assert_eq!(Piece::BQueen.get_value(), 900);
    assert_eq!(Piece::WKing.get_value(), 100_000);
    assert_eq!(Piece::BKing.get_value(), 100_000);
}
