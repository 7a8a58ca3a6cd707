use chess_engine::attack_pregen::PregenAttacks;
use chess_engine::board_state::BoardState;
use chess_engine::game::{EntryType, GameEnd, GameState, TTEntry};
use chess_engine::move_encode::{Move, MoveTextError};
use chess_engine::move_eval::{
    apply_entry, aspiration, bound_kind, capped_millis, early_exit, find_best_move, first_legal_move, keep_captures,
    negamax, search,
    delta_pruned, futile, late_depth, null_window, tally, zero_window, Tally,
    next_window, order_moves, quiescence_search, terminal_score, Early, SearchInfo, TimeManagement,
};
use chess_engine::piece::{Color, Piece};
use chess_engine::piece_square_table::Phase;
use chess_engine::pseudo_move_gen::get_pseudo_moves;
use chess_engine::square::Square;
use chess_engine::zobrist::ZobristHasher;

const KIWIPETE: &str = "r3k2r/p1ppqpb1/bn2pnp1/3PN3/1p2P3/2N2Q1p/PPPBBPPP/R3K2R w KQkq - 0 1";

fn play(game: &mut GameState, text: &str) {
    let m = Move::move_from_algebraic(text, game.get_board_state()).unwrap();
    assert!(game.is_valid(m), "{}", text);
    game.make_move(m);
}

fn perft(game: &mut GameState, depth: u32) -> u64 {
    if depth == 0 {
        return 1;
    }
    let mut moves = Vec::new();
    get_pseudo_moves(game.get_board_state(), game.get_pregen_attacks(), &mut moves);
    let mover = game.get_board_state().get_side();
    let mut count = 0;
    for m in moves {
        game.make_move(m);
        if !game.is_check(mover) {
            count += perft(game, depth - 1);
        }
        game.unmake_move();
    }
    count
}

#[test]
fn perft_from_the_start_position() {
    let mut game = GameState::new(None, 300_000);
    assert_eq!(perft(&mut game, 1), 20);
    assert_eq!(perft(&mut game, 2), 400);
    assert_eq!(perft(&mut game, 3), 8902);
}

#[test]
fn perft_four_plies_deep() {
    let mut game = GameState::new(None, 300_000);
    assert_eq!(perft(&mut game, 4), 197_281);
}

#[test]
fn perft_from_kiwipete_three_plies_deep() {
    let mut game = GameState::new(Some(KIWIPETE), 300_000);
    assert_eq!(perft(&mut game, 3), 97_862);
}

#[test]
fn perft_from_kiwipete() {
    let mut game = GameState::new(Some(KIWIPETE), 300_000);
    assert_eq!(perft(&mut game, 1), 48);
    assert_eq!(perft(&mut game, 2), 2039);
}

#[test]
fn fools_mate() {
    let mut game = GameState::new(None, 300_000);
    for text in ["f2f3", "e7e5", "g2g4", "d8h4"] {
        assert_eq!(game.end_condition(), GameEnd::Ongoing);
        play(&mut game, text);
    }
    assert!(game.is_checkmate());
    assert!(game.is_check(Color::White));
    assert!(!game.is_check(Color::Black));
    assert!(!game.is_stalemate());
    assert_eq!(game.end_condition(), GameEnd::Checkmate);
    assert_eq!(first_legal_move(&game), None);
    assert_eq!(find_best_move(&mut game, 1000), None);
}

#[test]
fn scholars_mate() {
    let mut game = GameState::new(None, 300_000);
    for text in ["e2e4", "e7e5", "f1c4", "b8c6", "d1h5", "g8f6", "h5f7"] {
        play(&mut game, text);
    }
    assert_eq!(game.get_board_state().get_side(), Color::Black);
    assert!(game.is_checkmate());
    assert!(game.is_check(Color::Black));
}

#[test]
fn stalemate_is_a_draw() {
    let game = GameState::new(Some("7k/5Q2/6K1/8/8/8/8/8 b - - 0 1"), 300_000);
    assert!(game.is_stalemate());
    assert!(!game.is_checkmate());
    assert_eq!(game.end_condition(), GameEnd::Stalemate);
}

#[test]
fn en_passant_make_and_unmake() {
    let fen = "rnbqkbnr/ppp1pppp/8/3pP3/8/8/PPPP1PPP/RNBQKBNR w KQkq d6 0 3";
    let mut game = GameState::new(Some(fen), 300_000);
    let mut moves = Vec::new();
    get_pseudo_moves(game.get_board_state(), game.get_pregen_attacks(), &mut moves);
    let ep: Vec<Move> = moves.iter().copied().filter(|m| m.is_en_passant()).collect();
    assert_eq!(ep.len(), 1);
    let m = ep[0];
    assert_eq!(m.to_string(), "e5d6");
    assert_eq!(m.get_capture(), Some(Piece::BPawn));
    assert_eq!(Move::move_from_algebraic("e5d6", game.get_board_state()), Ok(m));

    let before = game.get_board_state().snapshot();
    game.make_move(m);
    {
        let b = game.get_board_state();
        assert_eq!(b.get_piece_on_square(Square::D5), None);
        assert_eq!(b.get_piece_on_square(Square::E5), None);
        assert_eq!(b.get_piece_on_square(Square::D6), Some(Piece::WPawn));
        assert_eq!(b.get_en_passant(), None);
        assert_eq!(b.get_side(), Color::Black);
        assert_eq!(b.get_half_moves(), 0);
        assert_eq!(b.get_full_moves(), 3);
        assert_eq!(b.get_piece_count(Piece::BPawn), 7);
        assert_eq!(b.get_black_material(), before.get_black_material() - 100);
        assert_eq!(
            b.get_zobrist_hash(),
            game.zobrist.init_hash(b.get_board(), Color::Black, None, b.get_castling_rights())
        );
        assert_eq!(b.get_pawn_hash(), game.zobrist.init_hash_pawns(b.get_board()));
    }
    game.unmake_move();
    let after = game.get_board_state();
    assert_eq!(after.get_board(), before.get_board());
    assert_eq!(after.piece_bb, before.piece_bb);
    assert_eq!(after.position_bb, before.position_bb);
    assert_eq!(after.piece_lists, before.piece_lists);
    assert_eq!(after.get_en_passant(), Some(Square::D6));
    assert_eq!(after.get_zobrist_hash(), before.get_zobrist_hash());
    assert_eq!(after.get_pawn_hash(), before.get_pawn_hash());
    assert_eq!(after.get_material(), before.get_material());
    assert_eq!(after.get_piece_counts(), before.get_piece_counts());
    assert_eq!(after.get_half_moves(), 0);
    assert_eq!(after.get_full_moves(), 3);
    assert_eq!(game.history.len(), 0);
    assert_eq!(game.zobrist_history.len(), 1);
}

#[test]
fn rook_move_loses_the_castling_right() {
    let mut game = GameState::new(None, 300_000);
    play(&mut game, "a2a4");
    play(&mut game, "a7a5");
    let before_hash = game.get_board_state().get_zobrist_hash();
    let before_rights = game.get_board_state().get_castling_rights();
    assert_eq!(before_rights, 0b1111);
    play(&mut game, "a1a3");
    let b = game.get_board_state();
    assert_eq!(b.get_castling_rights(), 0b1101);
    let z = &game.zobrist;
    let rook = 3;
    // The rook leaves a1 for a3, the en-passant square on the a-file lapses, the move
    // passes on, and of the castling keys exactly White's queen-side key changes.
    let expected = before_hash
        ^ z.pieces[64 * rook]
        ^ z.pieces[64 * rook + 16]
        ^ z.en_passant[0]
        ^ z.turn
        ^ z.castling_rights[1];
    assert_eq!(b.get_zobrist_hash(), expected);
    assert_eq!(
        b.get_zobrist_hash() ^ z.castling_rights[1],
        z.init_hash(b.get_board(), Color::Black, None, 0b1111)
    );
}

#[test]
fn castling_moves_the_rook_and_clears_both_rights() {
    let mut game = GameState::new(Some("r3k2r/8/8/8/8/8/8/R3K2R w KQkq - 0 1"), 300_000);
    play(&mut game, "e1g1");
    {
        let b = game.get_board_state();
        assert_eq!(b.get_piece_on_square(Square::G1), Some(Piece::WKing));
        assert_eq!(b.get_piece_on_square(Square::F1), Some(Piece::WRook));
        assert_eq!(b.get_piece_on_square(Square::H1), None);
        assert_eq!(b.get_piece_on_square(Square::E1), None);
        assert_eq!(b.get_castling_rights(), 0b1100);
        assert_eq!(b.get_half_moves(), 1);
    }
    play(&mut game, "e8c8");
    let b = game.get_board_state();
    assert_eq!(b.get_piece_on_square(Square::C8), Some(Piece::BKing));
    assert_eq!(b.get_piece_on_square(Square::D8), Some(Piece::BRook));
    assert_eq!(b.get_piece_on_square(Square::A8), None);
    assert_eq!(b.get_castling_rights(), 0);
    assert_eq!(b.get_full_moves(), 2);
    assert_eq!(
        b.get_zobrist_hash(),
        game.zobrist.init_hash(b.get_board(), Color::White, None, 0)
    );
}

#[test]
fn capturing_a_rook_on_its_corner_clears_the_right() {
    let mut game = GameState::new(Some("r3k2r/8/8/8/8/8/6B1/R3K2R w KQkq - 0 1"), 300_000);
    play(&mut game, "g2a8");
    assert_eq!(game.get_board_state().get_castling_rights(), 0b0111);
    assert_eq!(game.get_board_state().get_piece_count(Piece::BRook), 1);
}

#[test]
fn promotion_with_capture() {
    let mut game = GameState::new(Some("1n2k3/P7/8/8/8/8/8/4K3 w - - 0 1"), 300_000);
    play(&mut game, "a7b8q");
    let b = game.get_board_state();
    assert_eq!(b.get_piece_on_square(Square::B8), Some(Piece::WQueen));
    assert_eq!(b.get_piece_on_square(Square::A7), None);
    assert_eq!(b.get_piece_count(Piece::WPawn), 0);
    assert_eq!(b.get_piece_count(Piece::WQueen), 1);
    assert_eq!(b.get_piece_count(Piece::BKnight), 0);
    assert_eq!(b.get_white_material(), 900 + 100000);
    assert_eq!(b.get_black_material(), 100000);
    assert_eq!(b.get_pawn_hash(), 0);
    assert_eq!(
        b.get_zobrist_hash(),
        game.zobrist.init_hash(b.get_board(), Color::Black, None, 0)
    );
}

#[test]
fn threefold_repetition() {
    let mut game = GameState::new(Some("4k3/8/8/8/8/8/8/4K3 w - - 0 1"), 300_000);
    assert!(!game.is_repetition_draw());
    for round in 0..2 {
        for text in ["e1d1", "e8d8", "d1e1", "d8e8"] {
            assert!(!game.is_repetition_draw(), "round {}", round);
            play(&mut game, text);
        }
    }
    assert!(game.is_repetition_draw());
    assert_eq!(game.end_condition(), GameEnd::Repetition);
}

#[test]
fn fifty_move_rule() {
    let game = GameState::new(Some("4k3/8/8/8/8/8/8/4K2R w - - 100 80"), 300_000);
    assert_eq!(game.half_move_clock(), 100);
    assert_eq!(game.end_condition(), GameEnd::FiftyMoves);
    let game = GameState::new(Some("4k3/8/8/8/8/8/8/4K2R w - - 99 80"), 300_000);
    assert_eq!(game.end_condition(), GameEnd::Ongoing);
}

#[test]
fn null_move_passes_the_turn() {
    let mut game = GameState::new(None, 300_000);
    let before = game.get_board_state().snapshot();
    game.make_null_move();
    assert_eq!(game.get_board_state().get_side(), Color::Black);
    assert_eq!(game.get_board_state().get_zobrist_hash(), before.get_zobrist_hash() ^ game.zobrist.turn);
    assert_eq!(game.get_board_state().get_half_moves(), before.get_half_moves());
    assert_eq!(game.get_board_state().get_en_passant(), before.get_en_passant());
    assert_eq!(game.history.len(), 0);
    assert_eq!(game.zobrist_history.len(), 1);
    game.unmake_null_move();
    assert_eq!(game.get_board_state().get_side(), Color::White);
    assert_eq!(game.get_board_state().get_zobrist_hash(), before.get_zobrist_hash());
}

#[test]
fn move_text_errors() {
    let game = GameState::new(None, 300_000);
    let b = game.get_board_state();
    assert_eq!(Move::move_from_algebraic("e2", b), Err(MoveTextError::InvalidNotation));
    assert_eq!(Move::move_from_algebraic("e2e4e5", b), Err(MoveTextError::InvalidNotation));
    assert_eq!(Move::move_from_algebraic("e2e9", b), Err(MoveTextError::InvalidSquare));
    assert_eq!(Move::move_from_algebraic("i2e4", b), Err(MoveTextError::InvalidSquare));
    assert_eq!(Move::move_from_algebraic("e3e4", b), Err(MoveTextError::IllegalEncoding));
    assert_eq!(Move::move_from_algebraic("e7e5", b), Err(MoveTextError::IllegalEncoding));
    assert_eq!(Move::move_from_algebraic("e2e4x", b), Err(MoveTextError::IllegalEncoding));
    assert_eq!(Move::move_from_algebraic("g1f3q", b), Err(MoveTextError::IllegalEncoding));
    let m = Move::move_from_algebraic("e2e4", b).unwrap();
    assert_eq!(m, Move::new(Square::E2, Square::E4, Piece::WPawn, None, None, true, false, false));
    // Readable, but not a move the pawn can make.
    let m = Move::move_from_algebraic("e2e5", b).unwrap();
    assert!(!game.is_valid(m));
    assert!(!b.fits(Move::new(Square::E2, Square::E4, Piece::WKnight, None, None, false, false, false)));
}

#[test]
fn moves_that_expose_the_king_are_not_valid() {
    // The knight on e2 is pinned by the rook on e8.
    let game = GameState::new(Some("4r1k1/8/8/8/8/8/4N3/4K3 w - - 0 1"), 300_000);
    let m = Move::move_from_algebraic("e2c3", game.get_board_state()).unwrap();
    assert!(game.get_board_state().fits(m));
    assert!(!game.is_valid(m));
    let m = Move::move_from_algebraic("e1d1", game.get_board_state()).unwrap();
    assert!(game.is_valid(m));
    // A king may not step next to the other king.
    let game = GameState::new(Some("8/8/8/3k4/8/3K4/8/8 w - - 0 1"), 300_000);
    let m = Move::move_from_algebraic("d3d4", game.get_board_state()).unwrap();
    assert!(!game.is_valid(m));
}

#[test]
fn clock_and_moves_to_go() {
    let mut game = GameState::new(None, 300_000);
    assert_eq!(game.get_moves_to_go(), 40);
    assert_eq!(GameState::new(None, 59_999).get_moves_to_go(), 20);
    assert_eq!(GameState::new(None, 60_000).get_moves_to_go(), 30);
    assert_eq!(GameState::new(None, 600_000).get_moves_to_go(), 50);
    game.decrement_moves_to_go();
    assert_eq!(game.get_moves_to_go(), 39);
    assert_eq!(game.get_clock_time(), 300_000);
    game.decrement_clock_time(10);
    assert_eq!(game.get_clock_time(), 290_000);
    game.decrement_clock_time(1000);
    assert_eq!(game.get_clock_time(), 0);
    assert!(GameState::try_new(Some("not a position"), 1000).is_err());
    assert!(GameState::try_new(None, 1000).is_ok());
}

#[test]
fn transposition_table_stores_and_replaces() {
    let mut game = GameState::new(None, 300_000);
    assert!(game.tt_lookup(7).is_none());
    game.tt_insert(7, TTEntry { score: 12, depth: 3, entry_type: EntryType::Exact });
    game.tt_insert(7, TTEntry { score: -5, depth: 4, entry_type: EntryType::LowerBound });
    let e = game.tt_lookup(7).unwrap();
    assert_eq!((e.score, e.depth, e.entry_type), (-5, 4, EntryType::LowerBound));
    assert!(game.tt_lookup(8).is_none());
}

#[test]
fn table_entries_shape_the_window() {
    let exact = TTEntry { score: 30, depth: 5, entry_type: EntryType::Exact };
    let p = apply_entry(&exact, 5, -100, 100);
    assert_eq!((p.cutoff, p.alpha, p.beta), (Some(30), -100, 100));
    let p = apply_entry(&exact, 6, -100, 100);
    assert_eq!((p.cutoff, p.alpha, p.beta), (None, -100, 100));
    let lower = TTEntry { score: 30, depth: 5, entry_type: EntryType::LowerBound };
    let p = apply_entry(&lower, 3, -100, 100);
    assert_eq!((p.cutoff, p.alpha, p.beta), (None, 30, 100));
    let p = apply_entry(&lower, 3, -100, 20);
    assert_eq!((p.cutoff, p.alpha, p.beta), (Some(30), 30, 20));
    let upper = TTEntry { score: 30, depth: 5, entry_type: EntryType::UpperBound };
    let p = apply_entry(&upper, 3, -100, 100);
    assert_eq!((p.cutoff, p.alpha, p.beta), (None, -100, 30));
    assert_eq!(bound_kind(5, 5, 9), EntryType::UpperBound);
    assert_eq!(bound_kind(9, 5, 9), EntryType::LowerBound);
    assert_eq!(bound_kind(7, 5, 9), EntryType::Exact);
}

#[test]
fn finished_games_are_scored_at_once() {
    // Mated: the score counts the plies from the root.
    let mut game = GameState::new(Some("rnb1kbnr/pppp1ppp/8/4p3/6Pq/5P2/PPPPP2P/RNBQKBNR w KQkq - 1 3"), 300_000);
    assert_eq!(terminal_score(&game, 0), Some(-100_000));
    assert_eq!(terminal_score(&game, 3), Some(-99_997));
    assert!(matches!(early_exit(&game, 4, -50, 50, 3), Early::Score(-99_997)));
    let mut info = SearchInfo::new(60_000, 30);
    info.depth = 5;
    let (score, pv) = negamax(&mut game, 2, -50, 50, false, &mut info);
    assert_eq!(score, -99_997);
    assert!(pv.is_empty());
    // Stalemate and the fifty-move rule are draws.
    let game = GameState::new(Some("7k/5Q2/6K1/8/8/8/8/8 b - - 0 1"), 300_000);
    assert_eq!(terminal_score(&game, 2), Some(0));
    let game = GameState::new(Some("4k3/8/8/8/8/8/8/4K2R w - - 100 80"), 300_000);
    assert_eq!(terminal_score(&game, 2), Some(0));
    // An ongoing game is not scored; the table may settle the node or narrow its window.
    let mut game = GameState::new(None, 300_000);
    assert_eq!(terminal_score(&game, 0), None);
    assert!(matches!(
        early_exit(&game, 3, -50, 50, 0),
        Early::Window { alpha: -50, beta: 50, in_check: false }
    ));
    let key = game.get_board_state().get_zobrist_hash();
    game.tt_insert(key, TTEntry { score: 7, depth: 3, entry_type: EntryType::LowerBound });
    assert!(matches!(
        early_exit(&game, 3, -50, 50, 0),
        Early::Window { alpha: 7, beta: 50, in_check: false }
    ));
    game.tt_insert(key, TTEntry { score: 7, depth: 3, entry_type: EntryType::Exact });
    assert!(matches!(early_exit(&game, 3, -50, 50, 0), Early::Score(7)));
    let mut info = SearchInfo::new(60_000, 30);
    info.depth = 3;
    assert_eq!(negamax(&mut game, 3, -50, 50, false, &mut info).0, 7);
    // At depth one a position far below the window is given up. Black is a queen down.
    let game = GameState::new(Some("4k3/8/8/8/8/8/8/Q3K3 b - - 0 1"), 300_000);
    assert!(matches!(early_exit(&game, 1, 0, 50, 0), Early::Score(0)));
    // The quiescence search stands pat where the evaluation reaches beta.
    let mut game = GameState::new(Some("4k3/8/8/8/8/8/8/Q3K3 w - - 0 1"), 300_000);
    let mut info = SearchInfo::new(60_000, 30);
    assert_eq!(quiescence_search(&mut game, -50, 50, 0, &mut info), 50);
    let eval = game.get_board_state().evaluate(game.get_pregen_attacks());
    assert_eq!(quiescence_search(&mut game, -50, 2_000_000, 6, &mut info), eval);
}

#[test]
fn time_budget() {
    let t = TimeManagement::new(60_000, 0, 30);
    assert_eq!(t.optimal_time, 1000);
    assert_eq!(t.max_time, 2000);
    assert_eq!(t.min_time, 100);
    assert_eq!(t.max_nodes, 1_000_000);
    assert_eq!(TimeManagement::new(60_000, 500, 4).optimal_time, 15_500);
    assert_eq!(TimeManagement::new(60_000, 0, 0).optimal_time, 60_000);
    assert_eq!(TimeManagement::new(u64::MAX, u64::MAX, 1).max_time, u64::MAX);
    assert!(t.should_stop(2000, 0));
    assert!(t.should_stop(0, 1_000_000));
    assert!(!t.should_stop(50, 10));
    assert!(!t.should_stop(1000, 10));
    assert!(t.should_stop(1001, 10));
    assert_eq!(aspiration(4, true, 10, 50), (-2_147_483_647, 2_147_483_647));
    assert_eq!(aspiration(5, false, 10, 50), (-2_147_483_647, 2_147_483_647));
    assert_eq!(aspiration(5, true, 2_147_483_600, 50), (2_147_483_550, 2_147_483_647));
    assert_eq!(aspiration(5, true, -2_147_483_600, 50), (-2_147_483_647, -2_147_483_550));
    assert_eq!(aspiration(5, true, 10, 50), (-40, 60));
    assert_eq!(next_window(50, true), 100);
    assert_eq!(next_window(50, false), 75);
    assert_eq!(next_window(900_000, true), 1_000_000);
}

#[test]
fn moves_are_ordered_by_score() {
    let mut game = GameState::new(Some(KIWIPETE), 300_000);
    let mut moves = Vec::new();
    get_pseudo_moves(game.get_board_state(), game.get_pregen_attacks(), &mut moves);
    let mut expected: Vec<u32> = moves.iter().map(|m| m.0).collect();
    expected.sort();
    let captures = keep_captures(&moves);
    assert_eq!(captures.len(), 8);
    assert!(captures.iter().all(|m| m.is_capture()));
    order_moves(&mut moves);
    for pair in moves.windows(2) {
        assert!(pair[0].get_score() >= pair[1].get_score());
    }
    let mut sorted: Vec<u32> = moves.iter().map(|m| m.0).collect();
    sorted.sort();
    assert_eq!(sorted, expected);
    // The search leaves the game as it found it.
    let before = game.get_board_state().snapshot();
    let mut info = SearchInfo::new(60_000, 30);
    info.depth = 2;
    let (score, _pv) = negamax(&mut game, 2, -2_000_000_000, 2_000_000_000, false, &mut info);
    assert!(score.abs() <= 2_000_000_000);
    assert_eq!(game.get_board_state().get_board(), before.get_board());
    assert_eq!(game.get_board_state().get_zobrist_hash(), before.get_zobrist_hash());
    assert_eq!(game.history.len(), 0);
    let q = quiescence_search(&mut game, -1000, 1000, 0, &mut info);
    assert!((-1000..=1000).contains(&q));
    assert_eq!(game.get_board_state().get_board(), before.get_board());
}

#[test]
fn search_finds_a_legal_move() {
    let mut game = GameState::new(None, 2000);
    let best = find_best_move(&mut game, 2000);
    let m = best.unwrap();
    assert!(game.is_valid(m));
    assert_eq!(game.get_moves_to_go(), 19);
    assert_eq!(game.history.len(), 0);
    assert_eq!(game.zobrist_history.len(), 1);
    // With no time at all the first legal move is played.
    let mut game = GameState::new(Some(KIWIPETE), 0);
    let m = find_best_move(&mut game, 0).unwrap();
    assert!(game.is_valid(m));
    assert_eq!(Some(m), first_legal_move(&game));
}

#[test]
fn principal_variation_can_be_played() {
    let mut game = GameState::new(Some(KIWIPETE), 60_000);
    let mut info = SearchInfo::new(60_000, 30);
    info.depth = 3;
    let (_score, pv) = negamax(&mut game, 3, -2_000_000_000, 2_000_000_000, false, &mut info);
    assert!(!pv.is_empty());
    assert_eq!(info.best_move, Some(pv[0]));
    for m in pv.iter() {
        assert!(game.is_valid(*m));
        game.make_move(*m);
    }
    assert_eq!(game.history.len(), pv.len());
}

#[test]
fn search_takes_the_mate_in_one() {
    let mut game = GameState::new(Some("6k1/5ppp/8/8/8/8/8/4R1K1 w - - 0 1"), 20_000);
    let m = find_best_move(&mut game, 20_000).unwrap();
    assert_eq!(m.to_string(), "e1e8");
    game.make_move(m);
    assert!(game.is_checkmate());
}

#[test]
fn evaluation_is_seen_from_the_side_to_move() {
    let zobrist = ZobristHasher::new();
    let attacks = PregenAttacks::init();
    let white = BoardState::new(Some("4k3/8/8/8/8/8/8/QQ2K3 w - - 0 1"), &zobrist).unwrap();
    let black = BoardState::new(Some("4k3/8/8/8/8/8/8/QQ2K3 b - - 0 1"), &zobrist).unwrap();
    assert!(white.evaluate(&attacks) > 1000);
    assert_eq!(white.evaluate(&attacks), -black.evaluate(&attacks));
    assert_eq!(white.get_phase(), Phase::Endgame);
    assert_eq!(white.get_num_pieces(), 4);
    assert_eq!(white.get_material_difference(), 1800);
    assert!(!white.is_check(Color::White, &attacks));
    // Doubled and isolated pawns, and a pawn with no enemy pawn on its file.
    let b = BoardState::new(Some("4k3/p7/8/8/8/P7/P6P/4K3 w - - 0 1"), &zobrist).unwrap();
    assert_eq!(b.count_double_pawns(Color::White), 1);
    assert_eq!(b.count_double_pawns(Color::Black), 0);
    assert_eq!(b.get_pawn_structure_score(Color::White), 20 - 10 - 20);
    assert_eq!(b.get_pawn_structure_score(Color::Black), -10);
    // A knight on a1 attacks b3 and c2; none holds an enemy piece.
    let b = BoardState::new(Some("4k3/8/8/8/8/8/8/N3K3 w - - 0 1"), &zobrist).unwrap();
    assert_eq!(b.get_mobility(Color::White, &attacks), 2);
    assert_eq!(b.get_mobility(Color::Black, &attacks), 0);
    // A rook attacks the king; one pawn shields it.
    let b = BoardState::new(Some("4k3/8/8/8/8/8/3P4/r3K3 w - - 0 1"), &zobrist).unwrap();
    assert_eq!(b.get_king_safety_score(Color::White, &attacks), 5 - 10);
    assert!(b.is_check(Color::White, &attacks));
    // The knight on d5 is attacked by the pawn on e4 and defended by nothing.
    let b = BoardState::new(Some("4k3/8/8/3n4/4P3/8/8/4K3 b - - 0 1"), &zobrist).unwrap();
    assert_eq!(b.get_hanging_bb(Color::Black, &attacks).get_occupied_squares(), vec![Square::D5]);
    assert!(b.get_hanging_bb(Color::White, &attacks).is_empty());
    assert!(b.attacked_squares(Color::White, &attacks).is_occupied(Square::D5));
    assert_eq!(b.get_psq_value(Piece::WPawn, Square::E4, Phase::Opening), 25);
}

#[test]
fn elapsed_time_stops_at_the_largest_count() {
    assert_eq!(capped_millis(0), 0);
    assert_eq!(capped_millis(1500), 1500);
    assert_eq!(capped_millis(u64::MAX as u128), u64::MAX);
    assert_eq!(capped_millis(u64::MAX as u128 + 1), u64::MAX);
    assert_eq!(capped_millis(u128::MAX), u64::MAX);
    let info = SearchInfo::new(1000, 20);
    assert!(info.time_elapsed() < 60_000);
}

#[test]
fn search_reports_the_last_completed_iteration() {
    let mut game = GameState::new(Some("6k1/5ppp/8/8/8/8/8/4R1K1 w - - 0 1"), 20_000);
    let found = search(&mut game, 20_000);
    assert!(found.depth >= 1);
    assert!(found.nodes > 0);
    assert_eq!(found.best_move.unwrap().to_string(), "e1e8");
    assert_eq!(found.best_move, Some(found.pv[0]));
    assert!(found.score > 90_000);
    assert_eq!(game.history.len(), 0);
    // With no time at all nothing is searched and the first legal move is played.
    let mut game = GameState::new(Some(KIWIPETE), 0);
    let first = first_legal_move(&game);
    let found = search(&mut game, 0);
    assert_eq!(found.depth, 0);
    assert_eq!(found.best_move, first);
    assert!(found.pv.is_empty());
    assert_eq!(found.score, 0);
    // A position without a legal move gives none.
    let mut game = GameState::new(Some("7k/5Q2/6K1/8/8/8/8/8 b - - 0 1"), 1000);
    let found = search(&mut game, 1000);
    assert_eq!(found.best_move, None);
    assert_eq!(found.nodes, 0);
}

#[test]
fn a_searched_node_leaves_its_entry_in_the_table() {
    let mut game = GameState::new(None, 60_000);
    let mut info = SearchInfo::new(60_000, 30);
    info.depth = 2;
    let key = game.get_board_state().get_zobrist_hash();
    let full = 2_147_483_646;
    let (score, pv) = negamax(&mut game, 2, -full, full, false, &mut info);
    assert!(!info.stop);
    let entry = *game.tt_lookup(key).unwrap();
    assert_eq!(entry.depth, 2);
    assert_eq!(entry.score, score);
    assert_eq!(entry.entry_type, EntryType::Exact);
    assert_eq!(entry.entry_type, bound_kind(entry.score, -full, full));
    assert_eq!(pv.len(), 2);
    // A second search of the node is settled by the entry: nothing is searched.
    let nodes = info.nodes;
    let (again, line) = negamax(&mut game, 2, -full, full, false, &mut info);
    assert_eq!(again, score);
    assert!(line.is_empty());
    assert_eq!(info.nodes, nodes + 1);
    // A stalemate is a draw, a mate counts against the side to move, and neither writes
    // to the table.
    let mut game = GameState::new(Some("7k/5Q2/6K1/8/8/8/8/8 b - - 0 1"), 60_000);
    let mut info = SearchInfo::new(60_000, 20);
    info.depth = 1;
    assert_eq!(negamax(&mut game, 1, -full, full, false, &mut info), (0, vec![]));
    assert!(game.transposition_table.is_empty());
    let mut game = GameState::new(Some("7k/6Q1/6K1/8/8/8/8/8 b - - 0 1"), 60_000);
    info.depth = 3;
    assert_eq!(negamax(&mut game, 1, -full, full, false, &mut info), (2 - 100_000, vec![]));
    assert!(game.transposition_table.is_empty());
    // A search whose stop flag is set returns the lower bound and changes nothing.
    let mut game = GameState::new(None, 60_000);
    info.stop = true;
    assert_eq!(negamax(&mut game, 2, -50, 50, false, &mut info), (-50, vec![]));
    assert_eq!(quiescence_search(&mut game, -50, 50, 0, &mut info), -50);
    assert!(game.transposition_table.is_empty());
}

#[test]
fn quiescence_score_lies_between_evaluation_and_beta() {
    let attacks = PregenAttacks::init();
    for fen in [KIWIPETE, "4k3/8/8/3n4/4P3/8/8/4K3 w - - 0 1", "r1bqkbnr/pppp1ppp/2n5/4p3/4P3/5N2/PPPP1PPP/RNBQKB1R w KQkq - 2 3"] {
        let mut game = GameState::new(Some(fen), 60_000);
        let eval = game.get_board_state().evaluate(&attacks);
        let mut info = SearchInfo::new(60_000, 30);
        let beta = eval + 500;
        let r = quiescence_search(&mut game, eval - 500, beta, 0, &mut info);
        assert!(!info.stop);
        assert!(eval <= r && r <= beta, "{} {} {}", fen, eval, r);
        assert_eq!(quiescence_search(&mut game, eval - 500, eval, 0, &mut info), eval);
    }
}

#[test]
fn time_budget_stays_within_the_time_given() {
    for (left, inc, moves) in [(1000u64, 0u64, 1u32), (1000, 0, 0), (1000, 50, 2), (60_000, 1000, 20), (0, 0, 5), (7, 3, 40)] {
        let t = TimeManagement::new(left, inc, moves);
        assert!(t.optimal_time <= t.max_time);
        assert!(t.max_time <= left + inc);
        assert_eq!(t.min_time, 100);
    }
    let t = TimeManagement::new(1000, 0, 1);
    assert_eq!((t.optimal_time, t.max_time), (1000, 1000));
    let t = TimeManagement::new(60_000, 1000, 20);
    assert_eq!((t.optimal_time, t.max_time), (2500, 5000));
}

#[test]
fn decisions_of_the_move_loop() {
    let top = 2_147_483_647;
    assert_eq!(null_window(100), (-100, -99));
    assert_eq!(null_window(-top), (top, top));
    assert_eq!(zero_window(30), (-31, -30));
    assert_eq!(zero_window(top), (-top, -top));
    assert_eq!(late_depth(3, 4, false, false), 1);
    assert_eq!(late_depth(3, 3, false, false), 2);
    assert_eq!(late_depth(3, 4, true, false), 2);
    assert_eq!(late_depth(3, 4, false, true), 2);
    assert_eq!(late_depth(2, 9, false, false), 1);
    assert!(delta_pruned(1, false, 100, 1076));
    assert!(!delta_pruned(1, false, 100, 1075));
    assert!(!delta_pruned(1, true, 100, 5000));
    assert!(!delta_pruned(2, false, 100, 5000));
    assert!(futile(0, 100, 251));
    assert!(!futile(0, 100, 250));
    assert_eq!(tally(-top, -50, 50, 10), Tally { best_score: 10, alpha: 10, raised: true, cutoff: false });
    assert_eq!(tally(10, 10, 50, 5), Tally { best_score: 10, alpha: 10, raised: false, cutoff: false });
    assert_eq!(tally(-top, -50, 50, -60), Tally { best_score: -60, alpha: -50, raised: false, cutoff: false });
    assert_eq!(tally(10, 10, 50, 50), Tally { best_score: 50, alpha: 50, raised: true, cutoff: true });
    assert_eq!(tally(-60, 70, 50, 0), Tally { best_score: 0, alpha: 70, raised: false, cutoff: true });
}

#[test]
fn bound_kind_is_taken_against_the_window_at_entry() {
    // The table holds a lower bound inside the window; every move scores below it.
    let mut game = GameState::new(None, 60_000);
    let key = game.get_board_state().get_zobrist_hash();
    game.tt_insert(key, TTEntry { score: 500, depth: 2, entry_type: EntryType::LowerBound });
    let mut info = SearchInfo::new(60_000, 30);
    info.depth = 2;
    let (score, pv) = negamax(&mut game, 2, -1000, 1000, false, &mut info);
    assert!(!info.stop);
    assert_eq!(score, 500);
    assert!(pv.is_empty());
    let entry = *game.tt_lookup(key).unwrap();
    assert_eq!(entry.depth, 2);
    assert!(-1000 < entry.score && entry.score <= 500, "{}", entry.score);
    assert_eq!(entry.entry_type, EntryType::Exact);
    assert_eq!(entry.entry_type, bound_kind(entry.score, -1000, 1000));
    // The same with an upper bound inside the window.
    let mut game = GameState::new(None, 60_000);
    let key = game.get_board_state().get_zobrist_hash();
    game.tt_insert(key, TTEntry { score: -500, depth: 2, entry_type: EntryType::UpperBound });
    let mut info = SearchInfo::new(60_000, 30);
    info.depth = 2;
    let (score, pv) = negamax(&mut game, 2, -1000, 1000, false, &mut info);
    assert!(!info.stop);
    let entry = *game.tt_lookup(key).unwrap();
    assert_eq!(entry.depth, 2);
    assert_eq!(entry.entry_type, bound_kind(entry.score, -1000, 1000));
    assert_eq!(score, entry.score.max(-1000));
    assert_eq!(pv.is_empty(), score == -1000);
}

#[test]
fn the_score_of_a_node_is_the_negated_score_after_the_first_move_of_its_line() {
    let full = 2_147_483_646;
    let mut game = GameState::new(Some(KIWIPETE), 60_000);
    let mut info = SearchInfo::new(60_000, 30);
    info.depth = 2;
    let (score, pv) = negamax(&mut game, 2, -full, full, false, &mut info);
    assert!(!info.stop && !pv.is_empty());
    game.make_move(pv[0]);
    let key = game.get_board_state().get_zobrist_hash();
    let child = *game.tt_lookup(key).unwrap();
    assert_eq!(child.depth, 1);
    assert_eq!(score, -child.score);
}
