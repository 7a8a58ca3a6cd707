use chess_engine::attack_pregen::{
    bishop_attack_otf, gen_bishop_masks, gen_rook_masks, init_sliding_attacks, rook_attack_otf, PregenAttacks,
    ROOK_MAGICS, ROOK_RELEVANT_BITS,
};
use chess_engine::bitboard::Bitboard;
use chess_engine::piece::{Color, PieceType};
use chess_engine::square::Square;

#[test]
fn test_pawn_attacks() {
    let attacks = PregenAttacks::init();

    assert_eq!(
        attacks.get_pawn_attacks(Color::White, Square::A1),
        Bitboard::new_from_u64(0x0000000000000200)
    );
    assert_eq!(
        attacks.get_pawn_attacks(Color::White, Square::A8),
        Bitboard::new_from_u64(0x0000000000000000)
    );
    assert_eq!(
        attacks.get_pawn_attacks(Color::White, Square::H1),
        Bitboard::new_from_u64(0x0000000000004000)
    );
    assert_eq!(
        attacks.get_pawn_attacks(Color::White, Square::H8),
        Bitboard::new_from_u64(0x0000000000000000)
    );
    assert_eq!(
        attacks.get_pawn_attacks(Color::White, Square::D4),
        Bitboard::new_from_u64(0x0000001400000000)
    );

    assert_eq!(
        attacks.get_pawn_attacks(Color::Black, Square::A1),
        Bitboard::new_from_u64(0x0000000000000000)
    );
    assert_eq!(
        attacks.get_pawn_attacks(Color::Black, Square::A8),
        Bitboard::new_from_u64(0x0002000000000000)
    );
    assert_eq!(
        attacks.get_pawn_attacks(Color::Black, Square::H1),
        Bitboard::new_from_u64(0x0000000000000000)
    );
    assert_eq!(
        attacks.get_pawn_attacks(Color::Black, Square::H8),
        Bitboard::new_from_u64(0x0040000000000000)
    );
    assert_eq!(
        attacks.get_pawn_attacks(Color::Black, Square::D4),
        Bitboard::new_from_u64(0x0000000000140000)
    );
}

#[test]
fn test_knight_attacks() {
    let attacks = PregenAttacks::init();

    assert_eq!(attacks.get_knight_attacks(Square::A1), Bitboard::new_from_u64(0x0000000000020400));
    assert_eq!(attacks.get_knight_attacks(Square::A8), Bitboard::new_from_u64(0x0004020000000000));
    assert_eq!(attacks.get_knight_attacks(Square::H1), Bitboard::new_from_u64(0x0000000000402000));
    assert_eq!(attacks.get_knight_attacks(Square::H8), Bitboard::new_from_u64(0x0020400000000000));
    assert_eq!(attacks.get_knight_attacks(Square::D4), Bitboard::new_from_u64(0x0000142200221400));
}

#[test]
fn test_king_attacks() {
    let attacks: PregenAttacks = PregenAttacks::init();

    assert_eq!(attacks.get_king_attacks(Square::A1), Bitboard::new_from_u64(0x0000000000000302));
    assert_eq!(attacks.get_king_attacks(Square::A8), Bitboard::new_from_u64(0x0203000000000000));
    assert_eq!(attacks.get_king_attacks(Square::H1), Bitboard::new_from_u64(0x000000000000c040));
    assert_eq!(attacks.get_king_attacks(Square::H8), Bitboard::new_from_u64(0x40c0000000000000));
    assert_eq!(attacks.get_king_attacks(Square::D4), Bitboard::new_from_u64(0x0000001c141c0000));
}

#[test]
fn test_bisop_attack() {
    let attacks: PregenAttacks = PregenAttacks::init();
    let mut bb = Bitboard::new_empty();
    bb.set_square(Square::C3);
    bb.set_square(Square::B6);
    bb.set_square(Square::G1);
    bb.set_square(Square::G7);

    assert_eq!(
        attacks.get_bishop_attacks(Square::A1, Bitboard::new_empty()),
        Bitboard::new_from_u64(0x8040201008040200)
    );
    assert_eq!(
        attacks.get_bishop_attacks(Square::A8, Bitboard::new_empty()),
        Bitboard::new_from_u64(0x2040810204080)
    );
    assert_eq!(
        attacks.get_bishop_attacks(Square::H1, Bitboard::new_empty()),
        Bitboard::new_from_u64(0x102040810204000)
    );
    assert_eq!(
        attacks.get_bishop_attacks(Square::H8, Bitboard::new_empty()),
        Bitboard::new_from_u64(0x40201008040201)
    );
    assert_eq!(
        attacks.get_bishop_attacks(Square::D4, Bitboard::new_empty()),
        Bitboard::new_from_u64(0x8041221400142241)
    );
    assert_eq!(attacks.get_bishop_attacks(Square::D4, bb), Bitboard::new_from_u64(0x40221400142040));
}

#[test]
fn test_rook_attack() {
    let attacks: PregenAttacks = PregenAttacks::init();
    let mut bb = Bitboard::new_empty();
    bb.set_square(Square::B4);
    bb.set_square(Square::G4);
    bb.set_square(Square::D6);
    bb.set_square(Square::D2);

    assert_eq!(
        attacks.get_rook_attacks(Square::A1, Bitboard::new_empty()),
        Bitboard::new_from_u64(0x1010101010101fe)
    );
    assert_eq!(
        attacks.get_rook_attacks(Square::A8, Bitboard::new_empty()),
        Bitboard::new_from_u64(0xfe01010101010101)
    );
    assert_eq!(
        attacks.get_rook_attacks(Square::H1, Bitboard::new_empty()),
        Bitboard::new_from_u64(0x808080808080807f)
    );
    assert_eq!(
        attacks.get_rook_attacks(Square::H8, Bitboard::new_empty()),
        Bitboard::new_from_u64(0x7f80808080808080)
    );
    assert_eq!(
        attacks.get_rook_attacks(Square::D4, Bitboard::new_empty()),
        Bitboard::new_from_u64(0x8080808f7080808)
    );
    assert_eq!(attacks.get_rook_attacks(Square::D4, bb), Bitboard::new_from_u64(0x80876080800));
}

#[test]
fn test_mask() {
    let masks = gen_rook_masks();
    println!("{:?}", masks[Square::A1.to_index()]);
    assert_eq!(masks[Square::A1.to_index()], Bitboard::new_from_u64(0x000101010101017e));
}

#[test]
fn magic_tables_pass_their_check() {
    let attacks = PregenAttacks::init();
    assert!(attacks.is_magic());
}

#[test]
fn magic_lookup_matches_ray_tracing() {
    let attacks = PregenAttacks::init();
    let occupancies = [
        0u64,
        0xffff00000000ffff,
        0x0000001818000000,
        0x8100000000000081,
        0x55aa55aa55aa55aa,
        0x0123456789abcdef,
        0xffffffffffffffff,
    ];
    for i in 0..64 {
        let sq = Square::from_index(i);
        for occ in occupancies {
            let occ = Bitboard::new_from_u64(occ);
            assert_eq!(attacks.get_rook_attacks(sq, occ), rook_attack_otf(sq, occ));
            assert_eq!(attacks.get_bishop_attacks(sq, occ), bishop_attack_otf(sq, occ));
            assert_eq!(
                attacks.get_queen_attacks(sq, occ),
                rook_attack_otf(sq, occ).combine(bishop_attack_otf(sq, occ))
            );
            assert_eq!(
                attacks.get_piece_attacks(PieceType::Queen, Color::White, sq, occ),
                attacks.get_queen_attacks(sq, occ)
            );
        }
    }
}

#[test]
fn rook_sees_first_blocker_on_edge_files() {
    let attacks = PregenAttacks::init();
    let mut occ = Bitboard::new_empty();
    occ.set_square(Square::A4);
    occ.set_square(Square::D1);
    assert_eq!(
        attacks.get_rook_attacks(Square::A1, occ),
        Bitboard::new_from_u64(0x000000000101010e)
    );
}

#[test]
fn slider_tables_are_laid_out_square_by_square() {
    let bishop_masks = gen_bishop_masks();
    let (offsets, table) = init_sliding_attacks(false, &bishop_masks);
    assert_eq!(offsets.len(), 64);
    assert_eq!(table.len(), 5248);
    assert_eq!(&offsets[..4], &[0, 64, 96, 128]);
    let rook_masks = gen_rook_masks();
    let (offsets, table) = init_sliding_attacks(true, &rook_masks);
    assert_eq!(table.len(), 102400);
    assert_eq!(&offsets[..3], &[0, 4096, 6144]);
    assert_eq!(offsets[63], 102400 - 4096);
    // The empty subset of the mask of a1 is sent to the first slot of its share: a rook
    // on an empty board sees its whole rank and file.
    assert_eq!(table[0], rook_attack_otf(Square::A1, Bitboard::new_empty()));
    for sq in [Square::A1, Square::D4, Square::H8] {
        let i = sq.to_index();
        for occ in rook_masks[i].get_occupancies() {
            let slot = offsets[i] + occ.get_magic_index(&rook_masks[i], &ROOK_MAGICS[i], &ROOK_RELEVANT_BITS[i]);
            assert_eq!(table[slot], rook_attack_otf(sq, occ));
        }
    }
}
