use chess_engine::attack_pregen::PregenAttacks;
use chess_engine::board_state::BoardState;
use chess_engine::move_encode::Move;
use chess_engine::piece::{Piece, PieceType};
use chess_engine::pseudo_move_gen::get_pseudo_moves;
use chess_engine::square::Square;
use chess_engine::zobrist::ZobristHasher;

fn setup_board(fen: &str) -> (BoardState, PregenAttacks) {
    let zobrist = ZobristHasher::new();
    let board_state = BoardState::new(Some(fen), &zobrist).unwrap();
    let pregen_attacks = PregenAttacks::init();
    (board_state, pregen_attacks)
}

#[test]
fn test_initial_position() {
    let (board_state, pregen_attacks) = setup_board("rnbqkbnr/pppppppp/8/8/8/8/PPPPPPPP/RNBQKBNR w KQkq - 0 1");
    let mut moves = Vec::new();
    get_pseudo_moves(&board_state, &pregen_attacks, &mut moves);
    assert_eq!(moves.len(), 20);
}

#[test]
fn test_pawn_moves() {
    let (board_state, pregen_attacks) = setup_board("8/8/8/8/8/8/PPPPPPPP/8 w - - 0 1");
    let mut moves = Vec::new();
    get_pseudo_moves(&board_state, &pregen_attacks, &mut moves);
    assert_eq!(moves.len(), 16);

    // A pawn that faces an enemy pawn on its own file can neither push nor capture.
    let (board_state, pregen_attacks) = setup_board("8/8/8/8/8/1p6/1P6/8 w - - 0 1");
    let mut moves = Vec::new();
    get_pseudo_moves(&board_state, &pregen_attacks, &mut moves);
    assert_eq!(moves.len(), 0);

    let (board_state, pregen_attacks) = setup_board("8/P7/8/8/8/8/8/8 w - - 0 1");
    let mut moves = Vec::new();
    get_pseudo_moves(&board_state, &pregen_attacks, &mut moves);
    assert_eq!(moves.len(), 4);
}

#[test]
fn test_en_passant() {
    let (board_state, pregen_attacks) = setup_board("8/8/8/3pP3/8/8/8/8 w - d6 0 1");
    let mut moves = Vec::new();
    get_pseudo_moves(&board_state, &pregen_attacks, &mut moves);
    assert!(moves.iter().any(|m| m.is_en_passant()));
}

#[test]
fn test_castling() {
    let (board_state, pregen_attacks) = setup_board("8/8/8/8/8/8/8/R3K2R w KQkq - 0 1");
    let mut moves = Vec::new();
    get_pseudo_moves(&board_state, &pregen_attacks, &mut moves);
    assert!(moves.iter().any(|m| m.is_castling()));

    let (board_state, pregen_attacks) = setup_board("r3k2r/8/8/8/8/8/8/8 b KQkq - 0 1");
    let mut moves = Vec::new();
    get_pseudo_moves(&board_state, &pregen_attacks, &mut moves);
    assert!(moves.iter().any(|m| m.is_castling()));
}

#[test]
fn test_knight_moves() {
    let (board_state, pregen_attacks) = setup_board("8/8/8/8/4N3/8/8/8 w - - 0 1");
    let mut moves = Vec::new();
    get_pseudo_moves(&board_state, &pregen_attacks, &mut moves);
    assert_eq!(moves.len(), 8);
}

#[test]
fn test_bishop_moves() {
    let (board_state, pregen_attacks) = setup_board("8/8/8/8/4B3/8/8/8 w - - 0 1");
    let mut moves = Vec::new();
    get_pseudo_moves(&board_state, &pregen_attacks, &mut moves);
    assert_eq!(moves.len(), 13);
}

#[test]
fn test_rook_moves() {
    let (board_state, pregen_attacks) = setup_board("8/8/8/8/4R3/8/8/8 w - - 0 1");
    let mut moves = Vec::new();
    get_pseudo_moves(&board_state, &pregen_attacks, &mut moves);
    assert_eq!(moves.len(), 14);
}

#[test]
fn test_queen_moves() {
    let (board_state, pregen_attacks) = setup_board("8/8/8/8/4Q3/8/8/8 w - - 0 1");
    let mut moves = Vec::new();
    get_pseudo_moves(&board_state, &pregen_attacks, &mut moves);
    assert_eq!(moves.len(), 27);
}

#[test]
fn test_king_moves() {
    let (board_state, pregen_attacks) = setup_board("8/8/8/8/4K3/8/8/8 w - - 0 1");
    let mut moves = Vec::new();
    get_pseudo_moves(&board_state, &pregen_attacks, &mut moves);
    assert_eq!(moves.len(), 8);
}

#[test]
fn test_pinned_pieces() {
    let (board_state, pregen_attacks) = setup_board("8/8/8/8/8/8/8/R1B1K2R w KQkq - 0 1");
    let mut moves = Vec::new();
    get_pseudo_moves(&board_state, &pregen_attacks, &mut moves);
    assert!(moves.iter().all(|m| !m.get_piece().is_knight()));
}

#[test]
fn test_check_evasion() {
    let (board_state, pregen_attacks) = setup_board("8/8/8/8/8/8/8/R1B1K2R w KQkq - 0 1");
    let mut moves = Vec::new();
    get_pseudo_moves(&board_state, &pregen_attacks, &mut moves);
    assert!(moves.iter().any(|m| m.get_piece().is_king()));
}

#[test]
fn test_promotion_captures() {
    let (board_state, pregen_attacks) = setup_board("8/P7/8/8/8/8/8/8 w - - 0 1");
    let mut moves = Vec::new();
    get_pseudo_moves(&board_state, &pregen_attacks, &mut moves);
    assert!(moves.iter().all(|m| m.get_promotion().is_some()));
}

#[test]
fn test_double_pawn_push() {
    let (board_state, pregen_attacks) = setup_board("8/8/8/8/8/8/PPPPPPPP/8 w - - 0 1");
    let mut moves = Vec::new();
    get_pseudo_moves(&board_state, &pregen_attacks, &mut moves);
    assert!(moves.iter().any(|m| m.is_double_pawn_push()));
}

#[test]
fn every_generated_move_fits_and_comes_once() {
    let fens = [
        "rnbqkbnr/pppppppp/8/8/8/8/PPPPPPPP/RNBQKBNR w KQkq - 0 1",
        "r3k2r/p1ppqpb1/bn2pnp1/3PN3/1p2P3/2N2Q1p/PPPBBPPP/R3K2R w KQkq - 0 1",
        "r3k2r/p1ppqpb1/bn2pnp1/3PN3/1p2P3/2N2Q1p/PPPBBPPP/R3K2R b KQkq - 0 1",
        "rnbqkbnr/ppp1pppp/8/3pP3/8/8/PPPP1PPP/RNBQKBNR w KQkq d6 0 3",
        "8/P7/8/8/8/8/8/k6K w - - 0 1",
        "4k3/8/8/8/8/8/8/4K2R w K - 0 1",
    ];
    for fen in fens {
        let (board, attacks) = setup_board(fen);
        let mut moves = vec![Move::new(Square::A1, Square::A2, Piece::WRook, None, None, false, false, false)];
        get_pseudo_moves(&board, &attacks, &mut moves);
        for (i, m) in moves.iter().enumerate() {
            assert!(board.fits(*m), "{} {}", fen, m.to_string());
            assert_eq!(m.get_capture().is_some(), m.is_capture());
            if !m.is_en_passant() {
                assert_eq!(m.get_capture(), board.get_piece_on_square(m.get_to()));
            }
            assert!(m.get_capture().map_or(true, |c| c.get_type() != PieceType::King));
            assert!(!moves[..i].contains(m));
        }
    }
}

#[test]
fn promotions_come_in_fours() {
    let (board, attacks) = setup_board("8/P7/8/8/8/8/8/k6K w - - 0 1");
    let mut moves = Vec::new();
    get_pseudo_moves(&board, &attacks, &mut moves);
    let texts: Vec<String> = moves.iter().map(|m| m.to_string()).collect();
    for t in ["a7a8q", "a7a8r", "a7a8b", "a7a8n"] {
        assert!(texts.contains(&t.to_string()), "{}", t);
    }
    assert!(moves.iter().all(|m| !m.is_capture()));
    assert_eq!(moves.iter().filter(|m| m.is_promotion()).count(), 4);
}

#[test]
fn castling_needs_safe_and_empty_squares() {
    // A rook on the f-file attacks the square the king crosses.
    let (board, attacks) = setup_board("4kr2/8/8/8/8/8/8/R3K2R w KQ - 0 1");
    let mut moves = Vec::new();
    get_pseudo_moves(&board, &attacks, &mut moves);
    let castles: Vec<Square> = moves.iter().filter(|m| m.is_castling()).map(|m| m.get_to()).collect();
    assert_eq!(castles, vec![Square::C1]);
    // In check there is no castling at all.
    let (board, attacks) = setup_board("4r1k1/8/8/8/8/8/8/R3K2R w KQ - 0 1");
    let mut moves = Vec::new();
    get_pseudo_moves(&board, &attacks, &mut moves);
    assert!(moves.iter().all(|m| !m.is_castling()));
    // A piece between king and rook blocks that side.
    let (board, attacks) = setup_board("4k3/8/8/8/8/8/8/RN2K2R w KQ - 0 1");
    let mut moves = Vec::new();
    get_pseudo_moves(&board, &attacks, &mut moves);
    let castles: Vec<Square> = moves.iter().filter(|m| m.is_castling()).map(|m| m.get_to()).collect();
    assert_eq!(castles, vec![Square::G1]);
    // Without the right there is no castling.
    let (board, attacks) = setup_board("4k3/8/8/8/8/8/8/R3K2R w - - 0 1");
    let mut moves = Vec::new();
    get_pseudo_moves(&board, &attacks, &mut moves);
    assert!(moves.iter().all(|m| !m.is_castling()));
}

#[test]
fn move_text_is_read_back() {
    for fen in [
        "8/P7/8/8/8/8/8/k6K w - - 0 1",
        "1n2k3/P7/8/8/8/8/8/4K3 w - - 0 1",
        "r3k2r/p1ppqpb1/bn2pnp1/3PN3/1p2P3/2N2Q1p/PPPBBPPP/R3K2R w KQkq - 0 1",
        "rnbqkbnr/ppp1pppp/8/3pP3/8/8/PPPP1PPP/RNBQKBNR w KQkq d6 0 3",
        "4k3/8/8/8/8/8/p7/4K3 b - - 0 1",
    ] {
        let (board, attacks) = setup_board(fen);
        let mut moves = Vec::new();
        get_pseudo_moves(&board, &attacks, &mut moves);
        assert!(!moves.is_empty());
        for m in moves {
            assert_eq!(Move::move_from_algebraic(&m.to_string(), &board), Ok(m), "{} {}", fen, m.to_string());
        }
    }
}
