use chess_engine::board_state::BoardState;
use chess_engine::fen_parser::{
    parse_castling_rights, parse_en_passant, parse_fen, parse_move_counters, parse_number, parse_piece_placement,
    parse_side, split_fields, to_chars,
};
use chess_engine::piece::{Color, Piece};
use chess_engine::square::Square;
use chess_engine::zobrist::ZobristHasher;

fn chars(s: &str) -> Vec<char> {
    s.chars().collect()
}

#[test]
fn test_parse_fen() {
    let zobrist = ZobristHasher::new();
    let fen = "rnbqkbnr/pppppppp/8/8/8/8/PPPPPPPP/RNBQKBNR w KQkq - 0 1";
    let result = parse_fen(fen, &zobrist);
    assert!(result.is_ok());
}

#[test]
fn test_invalid_fen() {
    let zobrist = ZobristHasher::new();
    let fen = "invalid fen";
    let result = parse_fen(fen, &zobrist);
    assert!(result.is_err());
}

#[test]
fn test_invalid_piece_placement() {
    let zobrist = ZobristHasher::new();
    let fen = "rnbqkbnr/pppppppp/9/8/8/8/PPPPPPPP/RNBQKBNR w KQkq - 0 1";
    let result = parse_fen(fen, &zobrist);
    assert!(result.is_err());
}

#[test]
fn test_gamestate_init() {
    let zobrist = ZobristHasher::new();
    let gs = BoardState::new(None, &zobrist).unwrap();
    assert_eq!(gs.get_full_moves(), 1);
    assert_eq!(gs.get_half_moves(), 0);
    assert_eq!(gs.get_side(), Color::White);
    assert_eq!(gs.get_en_passant(), None);
    assert_eq!(gs.get_castling_rights(), 1 | 2 | 4 | 8);

    let fen = "rnbqkbnr/pppppppp/8/8/8/8/PPPPPPPP/RNBQKBNR w Kq - 0 2";
    let gs = BoardState::new(Some(fen), &zobrist).unwrap();
    assert_eq!(gs.get_full_moves(), 2);
    assert_eq!(gs.get_half_moves(), 0);
    assert_eq!(gs.get_side(), Color::White);
    assert_eq!(gs.get_en_passant(), None);
    assert_eq!(gs.get_castling_rights(), 1 | 8);
}

#[test]
fn test_parse_enpas() {
    assert_eq!(parse_en_passant(&chars("-")), Ok(None));
    assert_eq!(parse_en_passant(&chars("e3")), Ok(Some(Square::E3)));
    assert_eq!(parse_en_passant(&chars("h6")), Ok(Some(Square::H6)));
}

#[test]
fn test_parse_castle() {
    assert_eq!(parse_castling_rights(&chars("-")), Ok(0));
    assert_eq!(parse_castling_rights(&chars("KQ")), Ok(1 | 2));
    assert_eq!(parse_castling_rights(&chars("k")), Ok(4));
}

#[test]
fn test_parse_side() {
    assert_eq!(parse_side(&chars("w")), Ok(Color::White));
    assert_eq!(parse_side(&chars("b")), Ok(Color::Black));
}

#[test]
fn fields_are_split_at_any_white_space() {
    assert_eq!(
        split_fields(&chars("  a bc\t\nd\u{3000}e  ")),
        vec![chars("a"), chars("bc"), chars("d"), chars("e")]
    );
    assert_eq!(split_fields(&chars("")), Vec::<Vec<char>>::new());
    assert_eq!(to_chars("w -"), chars("w -"));
}

#[test]
fn invalid_fields_are_rejected() {
    let zobrist = ZobristHasher::new();
    let bad = [
        "rnbqkbnr/pppppppp/8/8/8/8/PPPPPPPP/RNBQKBNR w KQkq - 0",
        "rnbqkbnr/pppppppp/8/8/8/8/PPPPPPPP/RNBQKBNR w KQkq - 0 1 extra",
        "rnbqkbnr/pppppppp/8/8/8/8/PPPPPPPP/RNBQKBNR x KQkq - 0 1",
        "rnbqkbnr/pppppppp/8/8/8/8/PPPPPPPP/RNBQKBNR w KQxq - 0 1",
        "rnbqkbnr/pppppppp/8/8/8/8/PPPPPPPP/RNBQKBNR w KQkq z9 0 1",
        "rnbqkbnr/pppppppp/8/8/8/8/PPPPPPPP/RNBQKBNR w KQkq - 256 1",
        "rnbqkbnr/pppppppp/8/8/8/8/PPPPPPPP/RNBQKBNR w KQkq - 0 4294967296",
        "rnbqkbnr/pppppppp/8/8/8/8/PPPPPPPP/RNBQKBNR w KQkq - -1 1",
        "rnbqkbnr/pppppppp/8/8/8/8/PPPPPPPP w KQkq - 0 1",
        "rnbqkbnr/pppppppp/8/8/8/8/PPPPPPPP/RNBQKBNR/8 w KQkq - 0 1",
        "rnbqkbnrr/pppppppp/8/8/8/8/PPPPPPPP/RNBQKBNR w KQkq - 0 1",
        "rnbqkbn/pppppppp/8/8/8/8/PPPPPPPP/RNBQKBNR w KQkq - 0 1",
        "rnbqkbnr/pppppppp/8/8/8/8/PPPPPPPP/RNBQKBN  w KQkq - 0 1",
        "rnbqkbnr/ppp ppppp/8/8/8/8/PPPPPPPP/RNBQKBNR w KQkq - 0 1",
        "",
    ];
    for fen in bad {
        assert!(parse_fen(fen, &zobrist).is_err(), "{}", fen);
    }
    assert!(parse_piece_placement(&chars("8/8/8/8/8/8/8/7")).is_err());
    assert!(parse_piece_placement(&chars("8/8/8/8/8/8/8/8")).is_ok());
    assert!(parse_side(&chars("ww")).is_err());
    assert!(parse_move_counters(&chars("0"), &chars("")).is_err());
    assert_eq!(parse_move_counters(&chars("+7"), &chars("0012")), Ok((7, 12)));
    assert_eq!(parse_number(&chars("255"), 255), Some(255));
    assert_eq!(parse_number(&chars("256"), 255), None);
    assert_eq!(parse_number(&chars("+"), 255), None);
    assert_eq!(parse_number(&chars("4294967295"), u32::MAX), Some(u32::MAX));
}

#[test]
fn parsed_position_is_consistent() {
    let zobrist = ZobristHasher::new();
    let fen = "r3k2r/p1ppqpb1/bn2pnp1/3PN3/1p2P3/2N2Q1p/PPPBBPPP/R3K2R b Kq e3 12 34";
    let b = parse_fen(fen, &zobrist).unwrap();
    assert_eq!(b.get_side(), Color::Black);
    assert_eq!(b.get_opposite_side(), Color::White);
    assert_eq!(b.get_castling_rights(), 1 | 8);
    assert!(b.check_castle(1));
    assert!(!b.check_castle(2));
    assert_eq!(b.get_en_passant(), Some(Square::E3));
    assert_eq!(b.get_half_moves(), 12);
    assert_eq!(b.get_full_moves(), 34);
    assert_eq!(b.get_piece_on_square(Square::E1), Some(Piece::WKing));
    assert_eq!(b.get_piece_on_square(Square::A8), Some(Piece::BRook));
    assert_eq!(b.get_piece_on_square(Square::E5), Some(Piece::WKnight));
    assert_eq!(b.get_piece_on_square(Square::H3), Some(Piece::BPawn));
    assert_eq!(b.get_piece_on_square(Square::A3), None);
    assert_eq!(b.get_board()[4], Some(Piece::WKing));
    // Bitboards, lists and counts agree with the mailbox.
    for i in 0..12 {
        let p = Piece::from_index(i);
        let bb = b.get_piece_bb(p);
        assert_eq!(bb.count_squares(), b.get_piece_count(p));
        assert_eq!(b.get_piece_counts()[i], b.get_piece_count(p));
        let mut listed: Vec<Square> = b.get_piece_squares(p).to_vec();
        listed.sort_by_key(|s| s.to_index());
        assert_eq!(listed, bb.get_occupied_squares());
        assert_eq!(b.get_piece_lists()[i].len(), listed.len());
        for s in bb.get_occupied_squares() {
            assert_eq!(b.get_piece_on_square(s), Some(p));
            assert!(b.get_position_bb(p.get_color()).is_occupied(s));
        }
    }
    assert_eq!(
        b.get_combined_bb().count_squares(),
        b.get_position_bb(Color::White).count_squares() + b.get_position_bb(Color::Black).count_squares()
    );
    assert_eq!(b.get_num_pieces(), 32);
    // Material is the sum of counts times values.
    let material = 8 * 100 + 2 * 320 + 2 * 330 + 2 * 500 + 900 + 100000;
    assert_eq!(b.get_white_material(), material);
    assert_eq!(b.get_black_material(), material);
    assert_eq!(*b.get_material(), [material, material]);
    assert_eq!(b.get_material_difference(), 0);
    // The hashes are what the hasher computes from scratch.
    assert_eq!(
        b.get_zobrist_hash(),
        zobrist.init_hash(b.get_board(), Color::Black, Some(Square::E3), 1 | 8)
    );
    assert_eq!(b.get_pawn_hash(), zobrist.init_hash_pawns(b.get_board()));
}

#[test]
fn en_passant_field_is_a_square_or_a_dash() {
    let z = ZobristHasher::new();
    assert!(parse_fen("rnbqkbnr/pppppppp/8/8/4P3/8/PPPP1PPP/RNBQKBNR b KQkq e3 0 1", &z).is_ok());
    assert!(parse_fen("rnbqkbnr/pppppppp/8/8/4P3/8/PPPP1PPP/RNBQKBNR b KQkq e3x 0 1", &z).is_err());
    assert!(parse_fen("rnbqkbnr/pppppppp/8/8/4P3/8/PPPP1PPP/RNBQKBNR b KQkq e 0 1", &z).is_err());
    assert!(parse_fen("rnbqkbnr/pppppppp/8/8/4P3/8/PPPP1PPP/RNBQKBNR b KQkq -- 0 1", &z).is_err());
}
