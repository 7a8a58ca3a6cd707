//! A chess engine core: bitboards, attack tables, Zobrist hashing, board state with
//! make/unmake, pseudo-legal move generation and an alpha-beta search.

pub mod attack_pregen;
pub mod bitboard;
pub mod board_state;
pub mod evaluation;
pub mod fen_parser;
pub mod game;
pub mod indexing;
pub mod move_encode;
pub mod move_eval;
pub mod move_rules;
pub mod piece;
pub mod piece_square_table;
pub mod pseudo_move_gen;
pub mod square;
pub mod zobrist;
