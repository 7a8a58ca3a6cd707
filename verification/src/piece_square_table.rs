//! Piece-square tables: a positional bonus for each kind of piece on each square.

use crate::piece::{Color, Piece};
use crate::square::Square;
use vstd::prelude::*;

verus! {

/// Stage of the game that selects a set of tables.
#[derive(Copy, Clone, Debug, PartialEq, Eq, Structural)]
pub enum Phase {
    Opening,
    Endgame,
}

/// Largest magnitude an entry of a table may have.
pub const PSQ_LIMIT: i32 = 100;

/// The tables of both phases, one row per kind of piece.
#[derive(Debug, Clone, Copy, PartialEq)]
pub struct PieceSquareTable {
    pub openings: [[i32; 64]; 6],
    pub endgames: [[i32; 64]; 6],
}

/// Square bonuses for pawns in the opening.
pub const PAWN_OPENING: [i32; 64] = [
    0, 0, 0, 0, 0, 0, 0, 0,
    50, 50, 50, 50, 50, 50, 50, 50,
    10, 10, 20, 30, 30, 20, 10, 10,
    5, 5, 10, 25, 25, 10, 5, 5,
    0, 0, 0, 20, 20, 0, 0, 0,
    0, -5, -10, 0, 0, -10, -5, 0,
    5, 10, 10, -20, -20, 10, 10, 5,
    0, 0, 0, 0, 0, 0, 0, 0,
];

/// Square bonuses for knights in the opening.
pub const KNIGHT_OPENING: [i32; 64] = [
    -50, -40, -30, -30, -30, -30, -40, -50,
    -40, -20, 0, 0, 0, 0, -20, -40,
    -30, 0, 10, 15, 15, 10, 0, -30,
    -30, 5, 15, 20, 20, 15, 5, -30,
    -30, 0, 15, 20, 20, 15, 0, -30,
    -30, 5, 10, 15, 15, 10, 5, -30,
    -40, -20, 0, 5, 5, 0, -20, -40,
    -50, -40, -30, -30, -30, -30, -40, -50,
];

/// Square bonuses for bishops in the opening.
pub const BISHOP_OPENING: [i32; 64] = [
    -20, -10, -10, -10, -10, -10, -10, -20,
    -10, 0, 0, 0, 0, 0, 0, -10,
    -10, 0, 5, 10, 10, 5, 0, -10,
    -10, 5, 5, 10, 10, 5, 5, -10,
    -10, 0, 10, 10, 10, 10, 0, -10,
    -10, 10, 10, 10, 10, 10, 10, -10,
    -10, 5, 0, 0, 0, 0, 5, -10,
    -20, -10, -10, -10, -10, -10, -10, -20,
];

/// Square bonuses for rooks in the opening.
pub const ROOK_OPENING: [i32; 64] = [
    0, 0, 0, 0, 0, 0, 0, 0,
    5, 0, 0, 0, 0, 0, 0, 5,
    -5, 0, 0, 0, 0, 0, 0, -5,
    -5, 0, 0, 0, 0, 0, 0, -5,
    -5, 0, 0, 0, 0, 0, 0, -5,
    -5, 0, 0, 0, 0, 0, 0, -5,
    -5, 0, 0, 0, 0, 0, 0, -5,
    0, 0, 0, 5, 5, 0, 0, 0,
];

/// Square bonuses for queens in the opening.
pub const QUEEN_OPENING: [i32; 64] = [
    -20, -10, -10, -5, -5, -10, -10, -20,
    -10, 0, 0, 0, 0, 0, 0, -10,
    -10, 0, 5, 5, 5, 5, 0, -10,
    -5, 0, 5, 5, 5, 5, 0, -5,
    0, 0, 5, 5, 5, 5, 0, -5,
    -10, 5, 5, 5, 5, 5, 0, -10,
    -10, 0, 5, 0, 0, 0, 0, -10,
    -20, -10, -10, -5, -5, -10, -10, -20,
];

/// Square bonuses for kings in the opening.
pub const KING_OPENING: [i32; 64] = [
    20, 30, 10, 0, 0, 10, 30, 20,
    20, 20, 0, 0, 0, 0, 20, 20,
    -10, -20, -20, -20, -20, -20, -20, -10,
    -20, -30, -30, -40, -40, -30, -30, -20,
    -30, -40, -40, -50, -50, -40, -40, -30,
    -30, -40, -40, -50, -50, -40, -40, -30,
    -30, -40, -40, -50, -50, -40, -40, -30,
    -30, -40, -40, -50, -50, -40, -40, -30,
];

/// Square bonuses for pawns in the endgame.
pub const PAWN_ENDGAME: [i32; 64] = [
    0, 0, 0, 0, 0, 0, 0, 0,
    80, 80, 80, 80, 80, 80, 80, 80,
    60, 60, 60, 60, 60, 60, 60, 60,
    40, 40, 40, 40, 40, 40, 40, 40,
    20, 20, 20, 20, 20, 20, 20, 20,
    0, 0, 0, 0, 0, 0, 0, 0,
    0, 0, 0, 0, 0, 0, 0, 0,
    0, 0, 0, 0, 0, 0, 0, 0,
];

/// Square bonuses for knights in the endgame.
pub const KNIGHT_ENDGAME: [i32; 64] = [
    -50, -40, -30, -30, -30, -30, -40, -50,
    -40, -20, 0, 0, 0, 0, -20, -40,
    -30, 0, 20, 25, 25, 20, 0, -30,
    -30, 5, 25, 30, 30, 25, 5, -30,
    -30, 0, 25, 30, 30, 25, 0, -30,
    -30, 5, 20, 25, 25, 20, 5, -30,
    -40, -20, 0, 5, 5, 0, -20, -40,
    -50, -40, -30, -30, -30, -30, -40, -50,
];

/// Square bonuses for bishops in the endgame.
pub const BISHOP_ENDGAME: [i32; 64] = [
    -20, -10, -10, -10, -10, -10, -10, -20,
    -10, 0, 0, 0, 0, 0, 0, -10,
    -10, 0, 10, 15, 15, 10, 0, -10,
    -10, 5, 15, 20, 20, 15, 5, -10,
    -10, 0, 15, 20, 20, 15, 0, -10,
    -10, 10, 15, 15, 15, 15, 10, -10,
    -10, 5, 0, 0, 0, 0, 5, -10,
    -20, -10, -10, -10, -10, -10, -10, -20,
];

/// Square bonuses for rooks in the endgame.
pub const ROOK_ENDGAME: [i32; 64] = [
    0, 0, 0, 0, 0, 0, 0, 0,
    0, 0, 0, 0, 0, 0, 0, 0,
    -5, 0, 0, 0, 0, 0, 0, -5,
    -5, 0, 0, 0, 0, 0, 0, -5,
    -5, 0, 0, 0, 0, 0, 0, -5,
    -5, 0, 0, 0, 0, 0, 0, -5,
    -5, 0, 0, 0, 0, 0, 0, -5,
    0, 0, 0, 5, 5, 0, 0, 0,
];

/// Square bonuses for queens in the endgame.
pub const QUEEN_ENDGAME: [i32; 64] = [
    -20, -10, -10, -5, -5, -10, -10, -20,
    -10, 0, 0, 0, 0, 0, 0, -10,
    -10, 0, 5, 5, 5, 5, 0, -10,
    -5, 0, 5, 5, 5, 5, 0, -5,
    0, 0, 5, 5, 5, 5, 0, -5,
    -10, 5, 5, 5, 5, 5, 0, -10,
    -10, 0, 5, 0, 0, 0, 0, -10,
    -20, -10, -10, -5, -5, -10, -10, -20,
];

/// Square bonuses for kings in the endgame.
pub const KING_ENDGAME: [i32; 64] = [
    -50, -40, -30, -20, -20, -30, -40, -50,
    -30, -20, -10, 0, 0, -10, -20, -30,
    -30, -10, 20, 30, 30, 20, -10, -30,
    -30, -10, 30, 40, 40, 30, -10, -30,
    -30, -10, 30, 40, 40, 30, -10, -30,
    -30, -10, 20, 30, 30, 20, -10, -30,
    -30, -30, 0, 0, 0, 0, -30, -30,
    -50, -30, -30, -30, -30, -30, -30, -50,
];

impl PieceSquareTable {
    /// Whether every entry lies between `-PSQ_LIMIT` and `PSQ_LIMIT`.
    pub open spec fn bounded(self) -> bool {
        &&& forall|t: int, i: int|
            0 <= t < 6 && 0 <= i < 64 ==> -PSQ_LIMIT <= #[trigger] self.openings[t][i] <= PSQ_LIMIT
        &&& forall|t: int, i: int|
            0 <= t < 6 && 0 <= i < 64 ==> -PSQ_LIMIT <= #[trigger] self.endgames[t][i] <= PSQ_LIMIT
    }

    /// The built-in tables.
    pub open spec fn spec_new() -> PieceSquareTable {
        PieceSquareTable {
            openings: [
                PAWN_OPENING,
                KNIGHT_OPENING,
                BISHOP_OPENING,
                ROOK_OPENING,
                QUEEN_OPENING,
                KING_OPENING,
            ],
            endgames: [
                PAWN_ENDGAME,
                KNIGHT_ENDGAME,
                BISHOP_ENDGAME,
                ROOK_ENDGAME,
                QUEEN_ENDGAME,
                KING_ENDGAME,
            ],
        }
    }

    /// The built-in tables.
    pub fn new() -> (r: PieceSquareTable)
        ensures
            r == Self::spec_new(),
            r.bounded(),
    {
        let r = PieceSquareTable {
            openings: [
                PAWN_OPENING,
                KNIGHT_OPENING,
                BISHOP_OPENING,
                ROOK_OPENING,
                QUEEN_OPENING,
                KING_OPENING,
            ],
            endgames: [
                PAWN_ENDGAME,
                KNIGHT_ENDGAME,
                BISHOP_ENDGAME,
                ROOK_ENDGAME,
                QUEEN_ENDGAME,
                KING_ENDGAME,
            ],
        };
        r
    }

    /// The entry for `piece` on `square`: White reads its table at the square's own index,
    /// Black at the index of the flipped square.
    pub open spec fn spec_value(self, phase: Phase, piece: Piece, square: Square) -> int {
        let i = if piece.spec_color() == Color::White {
            square.idx()
        } else {
            63 - square.idx()
        };
        match phase {
            Phase::Opening => self.openings[piece.spec_type().idx()][i] as int,
            Phase::Endgame => self.endgames[piece.spec_type().idx()][i] as int,
        }
    }

    /// The entry for `piece` on `square` in the given phase.
    pub fn get_value(&self, phase: Phase, piece: Piece, square: Square) -> (r: i32)
        requires
            piece.is_real(),
        ensures
            r == self.spec_value(phase, piece, square),
            self.bounded() ==> -PSQ_LIMIT <= r <= PSQ_LIMIT,
    {
        let piece_type = piece.get_type();
        let color = piece.get_color();
        let i = match color {
            Color::White => square.to_index(),
            Color::Black => square.flip().to_index(),
        };
        match phase {
            Phase::Opening => self.openings[piece_type.to_index()][i],
            Phase::Endgame => self.endgames[piece_type.to_index()][i],
        }
    }
}

} // verus!
