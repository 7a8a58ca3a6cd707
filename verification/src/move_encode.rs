//! Moves packed into one 32-bit word.
//!
//! | Bits  | Field                                  |
//! |-------|----------------------------------------|
//! | 0-5   | from square                            |
//! | 6-11  | to square                              |
//! | 12-15 | moving piece                           |
//! | 16-19 | captured piece, 12 for none            |
//! | 20-23 | promotion piece, 12 for none           |
//! | 24    | double pawn push                       |
//! | 25    | en passant                             |
//! | 26    | castling                               |

use crate::board_state::BoardState;
use crate::piece::{Color, Piece, PieceType};
use crate::piece_square_table::{Phase, PieceSquareTable, PSQ_LIMIT};
use crate::square::{lemma_square_from_index, lemma_square_index, Square};
use vstd::prelude::*;
use vstd::string::StringExecFns;

verus! {

/// Bonus of a castling move in move ordering.
pub const CASTLING_BONUS: i32 = 500;

/// Bonus of an en-passant capture in move ordering.
pub const EN_PASSANT_BONUS: i32 = 200;

/// Bonus of a double pawn push in move ordering.
pub const DOUBLE_PUSH_BONUS: i32 = 30;

/// Why a move could not be read from text.
#[derive(Copy, Clone, Debug, PartialEq, Eq, Structural)]
pub enum MoveTextError {
    /// The text is not four or five characters long.
    InvalidNotation,
    /// One of the two squares lies outside a1..h8.
    InvalidSquare,
    /// The from square holds no piece of the side to move, or the promotion does not go
    /// with the rest.
    IllegalEncoding,
}

/// The kind of piece a promotion letter stands for.
pub open spec fn spec_promotion_letter(c: char) -> Option<PieceType> {
    if c == 'q' {
        Some(PieceType::Queen)
    } else if c == 'r' {
        Some(PieceType::Rook)
    } else if c == 'b' {
        Some(PieceType::Bishop)
    } else if c == 'n' {
        Some(PieceType::Knight)
    } else {
        None
    }
}

/// The letter a piece is written with in move text: the lower-case letter of its kind,
/// whatever its colour.
pub open spec fn spec_kind_letter(p: Piece) -> char {
    match p.spec_type() {
        PieceType::Pawn => 'p',
        PieceType::Knight => 'n',
        PieceType::Bishop => 'b',
        PieceType::Rook => 'r',
        PieceType::Queen => 'q',
        PieceType::King => 'k',
    }
}

/// The letter a piece is written with in move text, as a one-character string.
pub fn kind_letter(p: Piece) -> (r: &'static str)
    requires
        p.is_real(),
    ensures
        r@ == seq![spec_kind_letter(p)],
        p.spec_type() != PieceType::Pawn && p.spec_type() != PieceType::King ==> spec_promotion_letter(spec_kind_letter(p))
            == Some(p.spec_type()),
{
    proof {
        reveal_strlit("p");
        reveal_strlit("n");
        reveal_strlit("b");
        reveal_strlit("r");
        reveal_strlit("q");
        reveal_strlit("k");
    }
    let r = match p.get_type() {
        PieceType::Pawn => "p",
        PieceType::Knight => "n",
        PieceType::Bishop => "b",
        PieceType::Rook => "r",
        PieceType::Queen => "q",
        PieceType::King => "k",
    };
    assert(r@ =~= seq![spec_kind_letter(p)]);
    r
}

/// A move in its packed form.
#[derive(Copy, Clone, Debug, PartialEq, Eq, Hash, Structural)]
pub struct Move(pub u32);

/// The word that holds the given fields at their places.
pub open spec fn spec_pack(
    from: u32,
    to: u32,
    piece: u32,
    capture: u32,
    promotion: u32,
    double_push: u32,
    en_passant: u32,
    castling: u32,
) -> u32 {
    from | (to << 6) | (piece << 12) | (capture << 16) | (promotion << 20) | (double_push << 24) | (
    en_passant << 25) | (castling << 26)
}

/// Index of an optional piece as a move field holds it: 12 where there is none.
pub open spec fn spec_slot(p: Option<Piece>) -> u32 {
    match p {
        Some(p) => p.idx() as u32,
        None => 12,
    }
}

/// The optional piece a field value stands for.
pub open spec fn spec_unslot(v: int) -> Option<Piece> {
    if 0 <= v < 12 {
        Some(Piece::spec_from_index(v))
    } else {
        None
    }
}

/// Reading the fields of a packed word gives back what was packed.
pub proof fn lemma_pack_fields(
    from: u32,
    to: u32,
    piece: u32,
    capture: u32,
    promotion: u32,
    double_push: u32,
    en_passant: u32,
    castling: u32,
)
    requires
        from < 64,
        to < 64,
        piece < 16,
        capture < 16,
        promotion < 16,
        double_push <= 1,
        en_passant <= 1,
        castling <= 1,
    ensures
        ({
            let x = spec_pack(from, to, piece, capture, promotion, double_push, en_passant, castling);
            &&& x & 0x3F == from
            &&& (x >> 6) & 0x3F == to
            &&& (x >> 12) & 0xF == piece
            &&& (x >> 16) & 0xF == capture
            &&& (x >> 20) & 0xF == promotion
            &&& (x >> 24) & 1 == double_push
            &&& (x >> 25) & 1 == en_passant
            &&& (x >> 26) & 1 == castling
            &&& x >> 27 == 0
        }),
{
    let x = spec_pack(from, to, piece, capture, promotion, double_push, en_passant, castling);
    assert({
        &&& x & 0x3F == from
        &&& (x >> 6) & 0x3F == to
        &&& (x >> 12) & 0xF == piece
        &&& (x >> 16) & 0xF == capture
        &&& (x >> 20) & 0xF == promotion
        &&& (x >> 24) & 1 == double_push
        &&& (x >> 25) & 1 == en_passant
        &&& (x >> 26) & 1 == castling
        &&& x >> 27 == 0
    }) by (bit_vector)
        requires
            from < 64,
            to < 64,
            piece < 16,
            capture < 16,
            promotion < 16,
            double_push <= 1,
            en_passant <= 1,
            castling <= 1,
            x == from | (to << 6) | (piece << 12) | (capture << 16) | (promotion << 20) | (double_push
                << 24) | (en_passant << 25) | (castling << 26),
    ;
}

/// A word without stray high bits is the packing of its own fields, and its fields lie
/// in their ranges.
pub proof fn lemma_fields_pack(x: u32)
    ensures
        x & 0x3F < 64,
        (x >> 6) & 0x3F < 64,
        (x >> 12) & 0xF < 16,
        (x >> 16) & 0xF < 16,
        (x >> 20) & 0xF < 16,
        (x >> 24) & 1 <= 1,
        (x >> 25) & 1 <= 1,
        (x >> 26) & 1 <= 1,
        x >> 27 == 0 ==> x == spec_pack(
            x & 0x3F,
            (x >> 6) & 0x3F,
            (x >> 12) & 0xF,
            (x >> 16) & 0xF,
            (x >> 20) & 0xF,
            (x >> 24) & 1,
            (x >> 25) & 1,
            (x >> 26) & 1,
        ),
{
    assert({
        &&& x & 0x3F < 64
        &&& (x >> 6) & 0x3F < 64
        &&& (x >> 12) & 0xF < 16
        &&& (x >> 16) & 0xF < 16
        &&& (x >> 20) & 0xF < 16
        &&& (x >> 24) & 1 <= 1
        &&& (x >> 25) & 1 <= 1
        &&& (x >> 26) & 1 <= 1
        &&& x >> 27 == 0 ==> x == (x & 0x3F) | (((x >> 6) & 0x3F) << 6) | (((x >> 12) & 0xF) << 12) | (((x
            >> 16) & 0xF) << 16) | (((x >> 20) & 0xF) << 20) | (((x >> 24) & 1) << 24) | (((x >> 25) & 1)
            << 25) | (((x >> 26) & 1) << 26)
    }) by (bit_vector);
}

impl Move {
    /// Index of the square the move starts from.
    pub open spec fn from_idx(self) -> int {
        (self.0 & 0x3F) as int
    }

    /// Index of the square the move ends on.
    pub open spec fn to_idx(self) -> int {
        ((self.0 >> 6) & 0x3F) as int
    }

    /// Value of the moving-piece field.
    pub open spec fn piece_idx(self) -> int {
        ((self.0 >> 12) & 0xF) as int
    }

    /// Value of the captured-piece field.
    pub open spec fn capture_idx(self) -> int {
        ((self.0 >> 16) & 0xF) as int
    }

    /// Value of the promotion-piece field.
    pub open spec fn promotion_idx(self) -> int {
        ((self.0 >> 20) & 0xF) as int
    }

    /// Whether the word is a move in canonical form: a real moving piece, a real piece or
    /// the sentinel 12 in the capture and promotion fields, and no bit above bit 26.
    pub open spec fn wf(self) -> bool {
        &&& self.piece_idx() < 12
        &&& self.capture_idx() <= 12
        &&& self.promotion_idx() <= 12
        &&& self.0 >> 27 == 0
    }

    /// Tells whether the word is a move in canonical form.
    pub fn is_canonical(&self) -> (r: bool)
        ensures
            r == self.wf(),
    {
        ((self.0 >> 12) & 0xF) < 12 && ((self.0 >> 16) & 0xF) <= 12 && ((self.0 >> 20) & 0xF) <= 12 && (self.0 >> 27) == 0
    }

    /// The square the move starts from.
    pub open spec fn spec_from(self) -> Square {
        Square::spec_from_index(self.from_idx())
    }

    /// The square the move ends on.
    pub open spec fn spec_to(self) -> Square {
        Square::spec_from_index(self.to_idx())
    }

    /// The moving piece.
    pub open spec fn spec_piece(self) -> Piece {
        Piece::spec_from_index(self.piece_idx())
    }

    /// The captured piece, if the move captures.
    pub open spec fn spec_capture(self) -> Option<Piece> {
        spec_unslot(self.capture_idx())
    }

    /// The piece a pawn is promoted to, if the move promotes.
    pub open spec fn spec_promotion(self) -> Option<Piece> {
        spec_unslot(self.promotion_idx())
    }

    /// Whether the move is flagged as a double pawn push.
    pub open spec fn spec_is_double_pawn_push(&self) -> bool {
        (self.0 >> 24) & 1 == 1
    }

    /// Whether the move is flagged as an en-passant capture.
    pub open spec fn spec_is_en_passant(&self) -> bool {
        (self.0 >> 25) & 1 == 1
    }

    /// Whether the move is flagged as castling.
    pub open spec fn spec_is_castling(&self) -> bool {
        (self.0 >> 26) & 1 == 1
    }

    /// The move with the given fields.
    pub open spec fn spec_new(
        from: Square,
        to: Square,
        piece: Piece,
        capture: Option<Piece>,
        promotion: Option<Piece>,
        double_pawn_push: bool,
        en_passant: bool,
        castling: bool,
    ) -> Move {
        Move(
            spec_pack(
                from.idx() as u32,
                to.idx() as u32,
                piece.idx() as u32,
                spec_slot(capture),
                spec_slot(promotion),
                if double_pawn_push { 1 } else { 0 },
                if en_passant { 1 } else { 0 },
                if castling { 1 } else { 0 },
            ),
        )
    }

    /// Packs a move. Every field reads back as given; an absent capture or promotion and
    /// the sentinel piece both read back as absent.
    #[verifier::when_used_as_spec(spec_new)]
    pub fn new(
        from: Square,
        to: Square,
        piece: Piece,
        capture: Option<Piece>,
        promotion: Option<Piece>,
        double_pawn_push: bool,
        en_passant: bool,
        castling: bool,
    ) -> (r: Move)
        ensures
            r == Self::spec_new(from, to, piece, capture, promotion, double_pawn_push, en_passant, castling),
            r.spec_from() == from,
            r.spec_to() == to,
            r.from_idx() == from.idx(),
            r.to_idx() == to.idx(),
            r.piece_idx() == piece.idx(),
            piece.is_real() ==> r.wf() && r.spec_piece() == piece,
            r.spec_capture() == (if capture == Some(Piece::Empty) { None } else { capture }),
            r.spec_promotion() == (if promotion == Some(Piece::Empty) { None } else { promotion }),
            r.spec_is_double_pawn_push() == double_pawn_push,
            r.spec_is_en_passant() == en_passant,
            r.spec_is_castling() == castling,
    {
        let c: u32 = match capture {
            Some(p) => p.to_index() as u32,
            None => 12,
        };
        let p: u32 = match promotion {
            Some(p) => p.to_index() as u32,
            None => 12,
        };
        let d: u32 = if double_pawn_push { 1 } else { 0 };
        let e: u32 = if en_passant { 1 } else { 0 };
        let k: u32 = if castling { 1 } else { 0 };
        let f: u32 = from.to_index() as u32;
        let t: u32 = to.to_index() as u32;
        let q: u32 = piece.to_index() as u32;
        proof {
            lemma_new_fields(from, to, piece, capture, promotion, double_pawn_push, en_passant, castling);
        }
        Move(f | (t << 6) | (q << 12) | (c << 16) | (p << 20) | (d << 24) | (e << 25) | (k << 26))
    }

    /// The move that a text of the form `<from><to>[promotion]` names on a position. The
    /// moving piece is read from the mailbox at the from square and the capture at the to
    /// square; a pawn that goes to the en-passant square captures the pawn that passed
    /// it; a pawn that goes from its starting rank to the fourth rank ahead pushes
    /// double; a king that goes from its home square two files to either side castles.
    pub open spec fn spec_move_from_algebraic(text: Seq<char>, board: BoardState) -> Result<Move, MoveTextError> {
        if text.len() != 4 && text.len() != 5 {
            Err(MoveTextError::InvalidNotation)
        } else if Square::spec_from_string(text.subrange(0, 2)) is None || Square::spec_from_string(text.subrange(2, 4))
            is None {
            Err(MoveTextError::InvalidSquare)
        } else {
            let from = Square::spec_from_string(text.subrange(0, 2))->Some_0;
            let to = Square::spec_from_string(text.subrange(2, 4))->Some_0;
            let held = board.board@[from.idx()];
            if held is None || held == Some(Piece::Empty) || held->Some_0.spec_color() != board.side {
                Err(MoveTextError::IllegalEncoding)
            } else if text.len() == 5 && (spec_promotion_letter(text[4]) is None || held->Some_0.spec_type()
                != PieceType::Pawn) {
                Err(MoveTextError::IllegalEncoding)
            } else {
                let piece = held->Some_0;
                let pawn = piece.spec_type() == PieceType::Pawn;
                let en_passant = pawn && board.en_passant == Some(to);
                let double_push = pawn && ((from.rank_idx() == 1 && to.rank_idx() == 3) || (from.rank_idx() == 6
                    && to.rank_idx() == 4));
                let castling = (piece == Piece::WKing && from.idx() == 4 && (to.idx() == 6 || to.idx() == 2)) || (piece
                    == Piece::BKing && from.idx() == 60 && (to.idx() == 62 || to.idx() == 58));
                Ok(
                    Move::spec_new(
                        from,
                        to,
                        piece,
                        if en_passant {
                            Some(Piece::spec_new(board.side.spec_opposite(), PieceType::Pawn))
                        } else {
                            board.board@[to.idx()]
                        },
                        if text.len() == 5 {
                            Some(Piece::spec_new(board.side, spec_promotion_letter(text[4])->Some_0))
                        } else {
                            None
                        },
                        double_push,
                        en_passant,
                        castling,
                    ),
                )
            }
        }
    }

    /// Reads a move from text against a position. Whether the board allows the move is
    /// not looked at here.
    pub fn move_from_algebraic(algebraic: &str, board_state: &BoardState) -> (r: Result<Move, MoveTextError>)
        ensures
            r == Self::spec_move_from_algebraic(algebraic@, *board_state),
    {
        let n = algebraic.unicode_len();
        if n != 4 && n != 5 {
            return Err(MoveTextError::InvalidNotation);
        }
        let from = match Square::from_string(algebraic.substring_char(0, 2)) {
            Ok(sq) => sq,
            Err(_) => {
                return Err(MoveTextError::InvalidSquare);
            },
        };
        let to = match Square::from_string(algebraic.substring_char(2, 4)) {
            Ok(sq) => sq,
            Err(_) => {
                return Err(MoveTextError::InvalidSquare);
            },
        };
        let side = board_state.get_side();
        let piece = match board_state.get_piece_on_square(from) {
            Some(p) => p,
            None => {
                return Err(MoveTextError::IllegalEncoding);
            },
        };
        if piece.to_index() >= 12 {
            return Err(MoveTextError::IllegalEncoding);
        }
        if piece.get_color() != side {
            return Err(MoveTextError::IllegalEncoding);
        }
        let pawn = piece.get_type() == PieceType::Pawn;
        let mut promotion: Option<Piece> = None;
        if n == 5 {
            let c = algebraic.get_char(4);
            let kind = if c == 'q' {
                PieceType::Queen
            } else if c == 'r' {
                PieceType::Rook
            } else if c == 'b' {
                PieceType::Bishop
            } else if c == 'n' {
                PieceType::Knight
            } else {
                return Err(MoveTextError::IllegalEncoding);
            };
            if !pawn {
                return Err(MoveTextError::IllegalEncoding);
            }
            promotion = Some(Piece::new(side, kind));
        }
        let mut capture = board_state.get_piece_on_square(to);
        let mut en_passant = false;
        let mut double_pawn_push = false;
        if pawn {
            let from_rank = from.to_index() / 8;
            let to_rank = to.to_index() / 8;
            double_pawn_push = (from_rank == 1 && to_rank == 3) || (from_rank == 6 && to_rank == 4);
            if board_state.get_en_passant() == Some(to) {
                capture = Some(Piece::new(side.opposite(), PieceType::Pawn));
                en_passant = true;
            }
        }
        let f = from.to_index();
        let t = to.to_index();
        let castling = (piece == Piece::WKing && f == 4 && (t == 6 || t == 2)) || (piece == Piece::BKing && f == 60 && (t
            == 62 || t == 58));
        Ok(Move::new(from, to, piece, capture, promotion, double_pawn_push, en_passant, castling))
    }

    /// The square the move starts from.
    pub fn get_from(&self) -> (r: Square)
        ensures
            r == self.spec_from(),
            r.idx() == self.from_idx(),
    {
        proof {
            lemma_fields_pack(self.0);
            lemma_square_from_index(self.from_idx());
        }
        Square::from_index((self.0 & 0x3F) as usize)
    }

    /// The square the move ends on.
    pub fn get_to(&self) -> (r: Square)
        ensures
            r == self.spec_to(),
            r.idx() == self.to_idx(),
    {
        proof {
            lemma_fields_pack(self.0);
            lemma_square_from_index(self.to_idx());
        }
        Square::from_index(((self.0 >> 6) & 0x3F) as usize)
    }

    /// The moving piece. The move must be in canonical form.
    pub fn get_piece(&self) -> (r: Piece)
        requires
            self.wf(),
        ensures
            r == self.spec_piece(),
            r.is_real(),
    {
        Piece::from_index(((self.0 >> 12) & 0xF) as usize)
    }

    /// The captured piece, if the move captures. The move must be in canonical form.
    pub fn get_capture(&self) -> (r: Option<Piece>)
        requires
            self.wf(),
        ensures
            r == self.spec_capture(),
            r is Some ==> r->Some_0.is_real(),
    {
        let capture = ((self.0 >> 16) & 0xF) as usize;
        if capture == 12 {
            None
        } else {
            Some(Piece::from_index(capture))
        }
    }

    /// The piece a pawn is promoted to, if the move promotes. The move must be in
    /// canonical form.
    pub fn get_promotion(&self) -> (r: Option<Piece>)
        requires
            self.wf(),
        ensures
            r == self.spec_promotion(),
            r is Some ==> r->Some_0.is_real(),
    {
        let promotion = ((self.0 >> 20) & 0xF) as usize;
        if promotion == 12 {
            None
        } else {
            Some(Piece::from_index(promotion))
        }
    }

    /// Whether the move is flagged as a double pawn push.
    #[verifier::when_used_as_spec(spec_is_double_pawn_push)]
    pub fn is_double_pawn_push(&self) -> (r: bool)
        ensures
            r == self.spec_is_double_pawn_push(),
    {
        (self.0 >> 24) & 1 == 1
    }

    /// Whether the move is flagged as an en-passant capture.
    #[verifier::when_used_as_spec(spec_is_en_passant)]
    pub fn is_en_passant(&self) -> (r: bool)
        ensures
            r == self.spec_is_en_passant(),
    {
        (self.0 >> 25) & 1 == 1
    }

    /// Whether the move is flagged as castling.
    #[verifier::when_used_as_spec(spec_is_castling)]
    pub fn is_castling(&self) -> (r: bool)
        ensures
            r == self.spec_is_castling(),
    {
        (self.0 >> 26) & 1 == 1
    }

    /// Whether the capture field holds a piece rather than the sentinel.
    pub open spec fn spec_is_capture(&self) -> bool {
        self.capture_idx() != 12
    }

    /// Whether the move captures.
    #[verifier::when_used_as_spec(spec_is_capture)]
    pub fn is_capture(&self) -> (r: bool)
        ensures
            r == self.spec_is_capture(),
            self.wf() ==> r == (self.spec_capture() is Some),
    {
        (self.0 >> 16) & 0xF != 12
    }

    /// Whether the promotion field holds a piece rather than the sentinel.
    pub open spec fn spec_is_promotion(&self) -> bool {
        self.promotion_idx() != 12
    }

    /// Whether the move promotes.
    #[verifier::when_used_as_spec(spec_is_promotion)]
    pub fn is_promotion(&self) -> (r: bool)
        ensures
            r == self.spec_is_promotion(),
            self.wf() ==> r == (self.spec_promotion() is Some),
    {
        (self.0 >> 20) & 0xF != 12
    }

    /// Whether the move neither captures nor promotes.
    pub fn is_quiet(&self) -> (r: bool)
        ensures
            r == (!self.spec_is_capture() && !self.spec_is_promotion()),
    {
        !self.is_capture() && !self.is_promotion()
    }

    /// Most valuable victim, least valuable attacker: ten times the victim's value less
    /// the attacker's, nothing for a move that does not capture.
    pub open spec fn spec_mvv_lva(self) -> int {
        match self.spec_capture() {
            Some(c) => 10 * c.spec_value() - self.spec_piece().spec_value(),
            None => 0,
        }
    }

    /// Bonuses for what kind of move it is: castling, ten times the value of a promotion
    /// piece, en passant, double push.
    pub open spec fn spec_special_bonus(self) -> int {
        (if self.spec_is_castling() { CASTLING_BONUS as int } else { 0 }) + (match self.spec_promotion() {
            Some(p) => 10 * p.spec_value(),
            None => 0,
        }) + (if self.spec_is_en_passant() { EN_PASSANT_BONUS as int } else { 0 }) + (
        if self.spec_is_double_pawn_push() { DOUBLE_PUSH_BONUS as int } else { 0 })
    }

    /// What the piece gains in the opening tables by going from its square to its target.
    pub open spec fn spec_table_gain(self) -> int {
        let pst = PieceSquareTable::spec_new();
        pst.spec_value(Phase::Opening, self.spec_piece(), self.spec_to()) - pst.spec_value(
            Phase::Opening,
            self.spec_piece(),
            self.spec_from(),
        )
    }

    /// Small bonuses and penalties by kind of piece, for a piece of `color` arriving on
    /// the square with the given file and rank.
    pub open spec fn spec_development(
        ptype: PieceType,
        color: Color,
        file: int,
        rank: int,
        castling: bool,
    ) -> int {
        let advanced = (color == Color::White && rank > 0) || (color == Color::Black && rank < 7);
        let central = 2 <= file <= 5 && 2 <= rank <= 5;
        let central_file = 2 <= file <= 5;
        match ptype {
            PieceType::Pawn => (if color == Color::White { rank * 10 } else { (7 - rank) * 10 }) + (
            if central_file { 10int } else { 0 }),
            PieceType::Knight => (if advanced { 20int } else { 0 }) + (if central { 30int } else { 0 }) - (
            if file == 0 || file == 7 { 10int } else { 0 }) - 10,
            PieceType::Bishop => (if advanced { 20int } else { 0 }) + (if central { 20int } else { 0 }) - 10,
            PieceType::Rook => (if advanced { 15int } else { 0 }) + (if (color == Color::White && rank == 6)
                || (color == Color::Black && rank == 1) { 30int } else { 0 }) - 10,
            PieceType::Queen => (if central { 10int } else { 0 }) - (if advanced { 10int } else { 0 }) - (
            if (color == Color::White && rank > 1) || (color == Color::Black && rank < 6) { 20int } else { 0 })
                - 10,
            PieceType::King => (if castling { 50int } else { 0 }) - (if advanced { 20int } else { 0 }) - 10,
        }
    }

    /// The ordering score of a move: the higher, the earlier it is searched.
    pub open spec fn spec_score(self) -> int {
        self.spec_mvv_lva() + self.spec_special_bonus() + self.spec_table_gain() + Self::spec_development(
            self.spec_piece().spec_type(),
            self.spec_piece().spec_color(),
            self.spec_to().file_idx(),
            self.spec_to().rank_idx(),
            self.spec_is_castling(),
        )
    }

    fn development(ptype: PieceType, color: Color, file: i32, rank: i32, castling: bool) -> (r: i32)
        requires
            0 <= file < 8,
            0 <= rank < 8,
        ensures
            r == Self::spec_development(ptype, color, file as int, rank as int, castling),
            -100 <= r <= 100,
    {
        let white = matches!(color, Color::White);
        let advanced = (white && rank > 0) || (!white && rank < 7);
        let central = file >= 2 && file <= 5 && rank >= 2 && rank <= 5;
        let mut score: i32 = 0;
        match ptype {
            PieceType::Pawn => {
                if white {
                    score += rank * 10;
                } else {
                    score += (7 - rank) * 10;
                }
                if file >= 2 && file <= 5 {
                    score += 10;
                }
            },
            PieceType::Knight => {
                if advanced {
                    score += 20;
                }
                if central {
                    score += 30;
                }
                if file == 0 || file == 7 {
                    score -= 10;
                }
                score -= 10;
            },
            PieceType::Bishop => {
                if advanced {
                    score += 20;
                }
                if central {
                    score += 20;
                }
                score -= 10;
            },
            PieceType::Rook => {
                if advanced {
                    score += 15;
                }
                if (white && rank == 6) || (!white && rank == 1) {
                    score += 30;
                }
                score -= 10;
            },
            PieceType::Queen => {
                if advanced {
                    score -= 10;
                }
                if central {
                    score += 10;
                }
                if (white && rank > 1) || (!white && rank < 6) {
                    score -= 20;
                }
                score -= 10;
            },
            PieceType::King => {
                if advanced {
                    score -= 20;
                }
                if castling {
                    score += 50;
                }
                score -= 10;
            },
        }
        score
    }

    fn mvv_lva(&self) -> (r: i32)
        requires
            self.wf(),
        ensures
            r == self.spec_mvv_lva(),
            -1_000_000 <= r <= 1_000_000,
    {
        match self.get_capture() {
            Some(captured_piece) => captured_piece.get_value() * 10 - self.get_piece().get_value(),
            None => 0,
        }
    }

    fn special_bonus(&self) -> (r: i32)
        requires
            self.wf(),
        ensures
            r == self.spec_special_bonus(),
            0 <= r <= 1_001_000,
    {
        let mut score: i32 = 0;
        if self.is_castling() {
            score += CASTLING_BONUS;
        }
        if let Some(promotion_piece) = self.get_promotion() {
            score += promotion_piece.get_value() * 10;
        }
        if self.is_en_passant() {
            score += EN_PASSANT_BONUS;
        }
        if self.is_double_pawn_push() {
            score += DOUBLE_PUSH_BONUS;
        }
        score
    }

    fn table_gain(&self) -> (r: i32)
        requires
            self.wf(),
        ensures
            r == self.spec_table_gain(),
            -2 * PSQ_LIMIT <= r <= 2 * PSQ_LIMIT,
    {
        let piece = self.get_piece();
        let pst = PieceSquareTable::new();
        pst.get_value(Phase::Opening, piece, self.get_to()) - pst.get_value(Phase::Opening, piece, self.get_from())
    }

    /// The ordering score of the move. The move must be in canonical form.
    pub fn get_score(&self) -> (r: i32)
        requires
            self.wf(),
        ensures
            r == self.spec_score(),
            -3_000_000 <= r <= 3_000_000,
    {
        let piece = self.get_piece();
        let to = self.get_to();
        let rank = to.get_rank().to_index() as i32;
        let file = to.get_file().to_index() as i32;
        let dev = Self::development(piece.get_type(), piece.get_color(), file, rank, self.is_castling());
        self.mvv_lva() + self.special_bonus() + self.table_gain() + dev
    }

    /// The move in coordinate notation: from square, to square and, for a promotion, the
    /// lower-case letter of the kind of the promotion piece.
    pub open spec fn spec_to_string(self) -> Seq<char> {
        self.spec_from().spec_to_string() + self.spec_to().spec_to_string() + (match self.spec_promotion() {
            Some(p) => seq![spec_kind_letter(p)],
            None => Seq::<char>::empty(),
        })
    }

    /// Writes the move in coordinate notation. The move must be in canonical form.
    pub fn to_string(&self) -> (r: String)
        requires
            self.wf(),
        ensures
            r@ == self.spec_to_string(),
    {
        let mut s = self.get_from().to_string();
        let t = self.get_to().to_string();
        s.append(t.as_str());
        if let Some(p) = self.get_promotion() {
            s.append(kind_letter(p));
        }
        proof {
            assert(s@ =~= self.spec_to_string());
        }
        s
    }
}

/// What the fields of a freshly packed move are.
pub proof fn lemma_new_fields(
    from: Square,
    to: Square,
    piece: Piece,
    capture: Option<Piece>,
    promotion: Option<Piece>,
    double_pawn_push: bool,
    en_passant: bool,
    castling: bool,
)
    ensures
        ({
            let r = Move::spec_new(from, to, piece, capture, promotion, double_pawn_push, en_passant, castling);
            &&& r.spec_from() == from
            &&& r.spec_to() == to
            &&& r.from_idx() == from.idx()
            &&& r.to_idx() == to.idx()
            &&& r.piece_idx() == piece.idx()
            &&& r.spec_is_capture() == (capture is Some && capture != Some(Piece::Empty))
            &&& piece.is_real() ==> r.wf() && r.spec_piece() == piece
            &&& r.spec_capture() == (if capture == Some(Piece::Empty) { None } else { capture })
            &&& r.spec_promotion() == (if promotion == Some(Piece::Empty) { None } else { promotion })
            &&& r.spec_is_double_pawn_push() == double_pawn_push
            &&& r.spec_is_en_passant() == en_passant
            &&& r.spec_is_castling() == castling
        }),
{
    lemma_square_index(from, to);
    lemma_square_index(to, from);
    lemma_pack_fields(
        from.idx() as u32,
        to.idx() as u32,
        piece.idx() as u32,
        spec_slot(capture),
        spec_slot(promotion),
        if double_pawn_push { 1 } else { 0 },
        if en_passant { 1 } else { 0 },
        if castling { 1 } else { 0 },
    );
}

/// Canonical moves with the same fields are the same move.
pub proof fn lemma_move_fields_determine(a: Move, b: Move)
    requires
        a.wf(),
        b.wf(),
        a.spec_from() == b.spec_from(),
        a.spec_to() == b.spec_to(),
        a.spec_piece() == b.spec_piece(),
        a.spec_capture() == b.spec_capture(),
        a.spec_promotion() == b.spec_promotion(),
        a.spec_is_double_pawn_push() == b.spec_is_double_pawn_push(),
        a.spec_is_en_passant() == b.spec_is_en_passant(),
        a.spec_is_castling() == b.spec_is_castling(),
    ensures
        a == b,
{
    lemma_fields_pack(a.0);
    lemma_fields_pack(b.0);
    lemma_square_from_index(a.from_idx());
    lemma_square_from_index(b.from_idx());
    lemma_square_from_index(a.to_idx());
    lemma_square_from_index(b.to_idx());
}

/// A canonical move is the packing of the fields read from it.
pub proof fn lemma_move_roundtrip(m: Move)
    requires
        m.wf(),
    ensures
        m == Move::spec_new(
            m.spec_from(),
            m.spec_to(),
            m.spec_piece(),
            m.spec_capture(),
            m.spec_promotion(),
            m.spec_is_double_pawn_push(),
            m.spec_is_en_passant(),
            m.spec_is_castling(),
        ),
{
    let x = m.0;
    lemma_fields_pack(x);
    lemma_square_from_index(m.from_idx());
    lemma_square_from_index(m.to_idx());
    assert(m.spec_from().idx() as u32 == x & 0x3F);
    assert(m.spec_to().idx() as u32 == (x >> 6) & 0x3F);
    assert(m.spec_piece().idx() as u32 == (x >> 12) & 0xF);
    assert(spec_slot(m.spec_capture()) == (x >> 16) & 0xF);
    assert(spec_slot(m.spec_promotion()) == (x >> 20) & 0xF);
    let d: u32 = if m.spec_is_double_pawn_push() { 1 } else { 0 };
    let e: u32 = if m.spec_is_en_passant() { 1 } else { 0 };
    let c: u32 = if m.spec_is_castling() { 1 } else { 0 };
    assert(d == (x >> 24) & 1);
    assert(e == (x >> 25) & 1);
    assert(c == (x >> 26) & 1);
}

} // verus!
