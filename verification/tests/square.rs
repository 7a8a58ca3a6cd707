use chess_engine::bitboard::Bitboard;
use chess_engine::square::{File, Rank, Square};

#[test]
fn test_square_from_rank_file() {
    let s = Square::from_file_rank(File::FA, Rank::R1);
    assert_eq!(s, Square::A1);

    let s = Square::from_file_rank(File::FH, Rank::R8);
    assert_eq!(s, Square::H8);

    let s = Square::from_file_rank(File::FD, Rank::R5);
    assert_eq!(s, Square::D5);
}

#[test]
fn test_get_rank() {
    let s = Square::A1;
    assert_eq!(s.get_rank(), Rank::R1);

    let s = Square::H8;
    assert_eq!(s.get_rank(), Rank::R8);

    let s = Square::D5;
    assert_eq!(s.get_rank(), Rank::R5);
}

#[test]
fn test_get_file() {
    let s = Square::A1;
    assert_eq!(s.get_file(), File::FA);

    let s = Square::H8;
    assert_eq!(s.get_file(), File::FH);

    let s = Square::D5;
    assert_eq!(s.get_file(), File::FD);
}

#[test]
fn test_square_get_rank_file() {
    let s = Square::A1;
    let (rank, file) = s.get_rank_file();
    assert_eq!(rank, Rank::R1);
    assert_eq!(file, File::FA);
}

#[test]
fn test_square_to_string() {
    assert_eq!(Square::A1.to_string(), "a1");
    assert_eq!(Square::H8.to_string(), "h8");
}

#[test]
fn test_rank_file() {
    assert_eq!(Square::A1.get_file().to_index(), 0);
    assert_eq!(Square::A1.get_rank().to_index(), 0);
    assert_eq!(Square::H8.get_file().to_index(), 7);
    assert_eq!(Square::H8.get_rank().to_index(), 7);
}

#[test]
fn square_from_string() {
    assert_eq!(Square::from_string("e4"), Ok(Square::E4));
    assert_eq!(Square::from_string("a1"), Ok(Square::A1));
    assert_eq!(Square::from_string("h8x"), Ok(Square::H8));
    assert!(Square::from_string("i1").is_err());
    assert!(Square::from_string("a9").is_err());
    assert!(Square::from_string("A1").is_err());
    assert!(Square::from_string("a0").is_err());
    assert!(Square::from_string("a").is_err());
    assert!(Square::from_string("").is_err());
    for i in 0..64 {
        let sq = Square::from_index(i);
        assert_eq!(sq.to_index(), i);
        assert_eq!(Square::from_string(&sq.to_string()), Ok(sq));
    }
}

#[test]
fn square_steps() {
    assert_eq!(Square::E4.flip(), Square::D5);
    assert_eq!(Square::A1.flip(), Square::H8);
    assert_eq!(Square::E2.move_up(2), Square::E4);
    assert_eq!(Square::E7.move_down(2), Square::E5);
    assert_eq!(Square::E1.move_right(2), Square::G1);
    assert_eq!(Square::E1.move_left(2), Square::C1);
    assert_eq!(Square::H8.move_up(1), Square::H1);
    assert_eq!(Square::H8.move_right(1), Square::A1);
    assert_eq!(Square::C3.get_next(), Square::D1);
    assert_eq!(Square::C3.get_prev(), Square::B1);
    assert_eq!(Square::E4.to_bitboard(), Bitboard::new_from_u64(1 << 28));
    assert!(Square::A2.is_light());
    assert!(Square::A1.is_dark());
    assert!(!Square::B1.is_dark());
}

#[test]
fn file_and_rank_steps() {
    assert_eq!(File::from_index(3), File::FD);
    assert_eq!(File::FH.get_next(), File::FA);
    assert_eq!(File::FD.get_prev(), File::FC);
    assert_eq!(File::FB.get_next_n(7), File::FA);
    assert_eq!(File::FD.get_prev_n(3), File::FA);
    assert_eq!(File::FA.get_prev_n(255), File::FB);
    assert_eq!(Rank::from_index(7), Rank::R8);
    assert_eq!(Rank::R8.get_next(), Rank::R1);
    assert_eq!(Rank::R2.get_prev(), Rank::R1);
    assert_eq!(Rank::R2.get_next_n(3), Rank::R5);
    assert_eq!(Rank::R5.get_prev_n(4), Rank::R1);
}
