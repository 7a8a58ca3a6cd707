use chess_engine::bitboard::Bitboard;
use chess_engine::piece::Color;
use chess_engine::square::{File, Rank, Square};

#[test]
fn test_move_up() {
    let board = Bitboard(0b0000_0000_0001);
    assert_eq!(board.shift_up(1), Bitboard(0b0001_0000_0000));
}

#[test]
fn test_move_down() {
    let board = Bitboard(0b0001_0000_0000);
    assert_eq!(board.shift_down(1), Bitboard(0b0000_0000_0001));
}

#[test]
fn test_move_left() {
    let board = Bitboard(0b0000_0010);
    assert_eq!(board.shift_left(1), Bitboard(0b0000_0001));
}

#[test]
fn test_move_right() {
    let board = Bitboard(0b0000_0100);
    assert_eq!(board.shift_right(1), Bitboard(0b0000_1000));
}

#[test]
fn test_move_up_left() {
    let board = Bitboard(0b0000_0001);
    assert_eq!(board.shift_up_left(1), Bitboard(0b0000_0000_0000));
}

#[test]
fn test_move_up_right() {
    let board = Bitboard(0b0000_0001);
    assert_eq!(board.shift_up_right(1), Bitboard(0b0010_0000_0000));
}

#[test]
fn test_move_down_left() {
    let board = Bitboard(0b0010_0000_0000);
    assert_eq!(board.shift_down_left(1), Bitboard(0b0000_0001));
}

#[test]
fn test_move_down_right() {
    let board = Bitboard(0b0000_0100);
    assert_eq!(board.shift_down_right(1), Bitboard(0b0000_0000_0000));
}

#[test]
fn shifts_never_wrap_round_an_edge() {
    let h1 = Bitboard::new_from_square(Square::H1);
    let a1 = Bitboard::new_from_square(Square::A1);
    assert_eq!(h1.shift_right(1), Bitboard::new_empty());
    assert_eq!(a1.shift_left(1), Bitboard::new_empty());
    assert_eq!(a1.shift_up_left(2), Bitboard::new_empty());
    assert_eq!(a1.shift_right(7), h1);
    assert_eq!(a1.shift_up(8), Bitboard::new_empty());
    assert_eq!(a1.shift_right(8), Bitboard::new_empty());
    assert_eq!(a1.shift_up_right(7), Bitboard::new_from_square(Square::H8));
    assert_eq!(a1.shift_by(2, 1), Bitboard::new_from_square(Square::C2));
}

#[test]
fn set_operations() {
    let a = Bitboard(0b1100);
    let b = Bitboard(0b1010);
    assert_eq!(a.combine(b), Bitboard(0b1110));
    assert_eq!(a.intersect(b), Bitboard(0b1000));
    assert_eq!(a.diff(b), Bitboard(0b0100));
    assert_eq!(a.invert(), Bitboard(!0b1100u64));
    assert_eq!(!a, a.invert());
    assert_eq!(Bitboard::new_full().count_squares(), 64);
    assert_eq!(Bitboard::new_empty().count_squares(), 0);
    assert!(Bitboard::new_empty().is_empty());
    assert_eq!(a.count_squares(), 2);
    assert!(a.is_occupied(Square::C1));
    assert!(!a.is_occupied(Square::A1));
}

#[test]
fn members_come_out_in_order() {
    let mut bb = Bitboard::new_empty();
    bb.set_square(Square::H8);
    bb.set_square(Square::A1);
    bb.set_square(Square::D4);
    assert_eq!(bb.get_occupied_squares(), vec![Square::A1, Square::D4, Square::H8]);
    assert_eq!(bb.get_ls_square(), Square::A1);
    assert_eq!(bb.get_ms_square(), Square::H8);
    assert_eq!(bb.pop_ls_square(), Square::A1);
    assert_eq!(bb.pop_ms_square(), Square::H8);
    assert_eq!(bb, Bitboard::new_from_square(Square::D4));
    bb.make_move(Square::D4, Square::D5);
    assert_eq!(bb, Bitboard::new_from_square(Square::D5));
    bb.clear_square(Square::D5);
    assert!(bb.is_empty());
}

#[test]
fn rank_and_file_occupancy() {
    let bb = Bitboard(0x0000_0000_0000_ff81);
    assert_eq!(bb.get_occ_rank(Rank::R1), Bitboard(0x81));
    assert_eq!(bb.get_occ_rank(Rank::R2), Bitboard(0xff00));
    assert_eq!(bb.get_occ_file(File::FA), Bitboard(0x0101));
    assert_eq!(bb.get_occ_file(File::FH), Bitboard(0x8080));
}

#[test]
fn subsets_are_enumerated_in_descending_order() {
    let mask = Bitboard(0b1010);
    assert_eq!(
        mask.get_occupancies(),
        vec![Bitboard(0b1010), Bitboard(0b1000), Bitboard(0b0010), Bitboard(0)]
    );
    assert_eq!(Bitboard(0).get_occupancies(), vec![Bitboard(0)]);
    assert_eq!(Bitboard(0b1010).next_subset(mask), Bitboard(0b1000));
}

#[test]
fn magic_index_keeps_the_top_bits() {
    let occ = Bitboard(0xffff_ffff_ffff_ffff);
    let mask = Bitboard(0x0000_0000_0000_00f0);
    let magic = 0x0100_0000_0000_0000u64;
    assert_eq!(occ.get_magic_index(&mask, &magic, &8), 0xf0);
    assert_eq!(occ.get_magic_index(&mask, &magic, &4), 0xf);
}

#[test]
fn attack_shifts() {
    let d4 = Bitboard::new_from_square(Square::D4);
    assert_eq!(d4.shift_pawn_attack(Color::White), Bitboard(0x0000001400000000));
    assert_eq!(d4.shift_pawn_attack(Color::Black), Bitboard(0x0000000000140000));
    assert_eq!(d4.shift_knight_attack(), Bitboard(0x0000142200221400));
    assert_eq!(d4.shift_king_attack(), Bitboard(0x0000001c141c0000));
}

#[test]
fn a_mask_has_two_to_its_size_subsets() {
    for mask in [0u64, 1, 0x8000000000000000, 0x000101010101017e, 0x0040201008040200, 0xff] {
        let bb = Bitboard::new_from_u64(mask);
        let subsets = bb.get_occupancies();
        assert_eq!(subsets.len(), 1usize << bb.count_squares());
        assert_eq!(subsets[0], bb);
        assert_eq!(subsets[subsets.len() - 1], Bitboard::new_empty());
    }
}
