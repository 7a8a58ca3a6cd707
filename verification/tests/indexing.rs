use chess_engine::piece::{Color, Piece};
use chess_engine::square::{File, Rank, Square};

#[test]
fn index_test() {
    let vec = vec!['a', 'b', 'c', 'd', 'e', 'f', 'g', 'h', 'i', 'j', 'k', 'l', 'm'];
    assert_eq!(vec[Piece::WBishop], 'c');
    assert_eq!(vec[Piece::BKnight], 'h');
}

#[test]
fn index_mut_test() {
    let mut vec = vec![0, 1, 2, 3, 4, 5, 6, 7, 8, 9, 10, 11, 12];
    vec[Piece::WQueen] = 99;
    assert_eq!(vec[Piece::WQueen], 99);
}

#[test]
fn color_index_mut_test() {
    let mut vec = vec![0, 1, 2];
    vec[Color::Black] = 99;
    assert_eq!(vec[Color::Black], 99);
}

#[test]
fn writing_by_key_changes_one_entry() {
    let mut array = [0u8; 64];
    array[Square::E4] = 7;
    array[Rank::R2] = 3;
    array[File::FH] = 5;
    let mut expected = [0u8; 64];
    expected[28] = 7;
    expected[1] = 3;
    expected[7] = 5;
    assert_eq!(array, expected);
    let mut vec = vec![0u8; 64];
    vec[Square::H8] = 1;
    vec[Rank::R8] = 2;
    vec[File::FA] = 4;
    assert_eq!(vec[63], 1);
    assert_eq!(vec[7], 2);
    assert_eq!(vec[0], 4);
    let slice: &mut [u8] = &mut vec[..];
    slice[Piece::BKing] = 9;
    slice[Color::Black] = 8;
    assert_eq!(slice[11], 9);
    assert_eq!(slice[1], 8);
}

#[test]
fn color_index_test() {
    let vec = vec!['a', 'b', 'c'];
    assert_eq!(vec[Color::White], 'a');
    assert_eq!(vec[Color::Black], 'b');
}

#[test]
fn test_index_operations() {
    let vec = vec![0, 1, 2, 3, 4, 5, 6, 7];
    let array = [0, 1, 2, 3, 4, 5, 6, 7];

    assert_eq!(vec[Square::A1], 0);
    assert_eq!(vec[Square::B1], 1);

    assert_eq!(array[Square::A1], 0);
    assert_eq!(array[Square::B1], 1);

    assert_eq!(vec[Rank::R1], 0);
    assert_eq!(vec[Rank::R2], 1);

    assert_eq!(array[Rank::R1], 0);
    assert_eq!(array[Rank::R2], 1);

    assert_eq!(vec[File::FA], 0);
    assert_eq!(vec[File::FB], 1);

    assert_eq!(array[File::FA], 0);
    assert_eq!(array[File::FB], 1);
}
