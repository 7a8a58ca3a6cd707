//! Colors, piece kinds and the twelve coloured pieces.

use vstd::prelude::*;

verus! {

/// Centipawn value of a pawn.
pub const PAWN_VALUE: i32 = 100;

/// Centipawn value of a knight.
pub const KNIGHT_VALUE: i32 = 320;

/// Centipawn value of a bishop.
pub const BISHOP_VALUE: i32 = 330;

/// Centipawn value of a rook.
pub const ROOK_VALUE: i32 = 500;

/// Centipawn value of a queen.
pub const QUEEN_VALUE: i32 = 900;

/// Centipawn value of a king: larger than any material swing that can occur.
pub const KING_VALUE: i32 = 100000;

/// Figurine glyph of each piece, by piece index; the last entry stands for no piece.
pub const PIECE_CHARS_FANCY: [char; 13] = [
    '♟', '♞', '♝', '♜', '♛', '♚', '♙', '♘', '♗', '♖', '♕', '♔', ' ',
];

/// Letter of each piece, by piece index; the last entry stands for no piece.
pub const PIECE_CHARS: [char; 13] = [
    'P', 'N', 'B', 'R', 'Q', 'K', 'p', 'n', 'b', 'r', 'q', 'k', ' ',
];

/// One of the four castling rights. Each owns one bit of the rights mask.
#[derive(Copy, Clone, PartialEq, Eq, Debug, Hash, Structural)]
pub enum CastlePerms {
    WKC,
    WQC,
    BKC,
    BQC,
}

/// Side of a piece or of the player to move.
#[derive(Copy, Clone, PartialEq, Eq, Debug, Hash, Structural)]
pub enum Color {
    White,
    Black,
}

/// Kind of a piece, without its colour.
#[derive(Copy, Clone, PartialEq, Eq, Debug, Hash, Structural)]
pub enum PieceType {
    Pawn,
    Knight,
    Bishop,
    Rook,
    Queen,
    King,
}

/// A coloured piece. `Empty` is the sentinel used where a piece slot is empty.
#[derive(Copy, Clone, PartialEq, Eq, Debug, Hash, Structural)]
pub enum Piece {
    WPawn,
    WKnight,
    WBishop,
    WRook,
    WQueen,
    WKing,
    BPawn,
    BKnight,
    BBishop,
    BRook,
    BQueen,
    BKing,
    Empty,
}

/// The twelve real pieces in index order.
pub const PIECES: [Piece; 12] = [
    Piece::WPawn,
    Piece::WKnight,
    Piece::WBishop,
    Piece::WRook,
    Piece::WQueen,
    Piece::WKing,
    Piece::BPawn,
    Piece::BKnight,
    Piece::BBishop,
    Piece::BRook,
    Piece::BQueen,
    Piece::BKing,
];

/// The six piece kinds in index order.
pub const PIECE_TYPES: [PieceType; 6] = [
    PieceType::Pawn,
    PieceType::Knight,
    PieceType::Bishop,
    PieceType::Rook,
    PieceType::Queen,
    PieceType::King,
];

impl CastlePerms {
    /// The bit this right occupies in a rights mask: 1, 2, 4, 8 for WK, WQ, BK, BQ.
    pub open spec fn spec_mask(self) -> u8 {
        match self {
            CastlePerms::WKC => 1,
            CastlePerms::WQC => 2,
            CastlePerms::BKC => 4,
            CastlePerms::BQC => 8,
        }
    }

    /// The bit this right occupies in a rights mask.
    #[verifier::when_used_as_spec(spec_mask)]
    pub fn mask(self) -> (r: u8)
        ensures
            r == self.spec_mask(),
    {
        match self {
            CastlePerms::WKC => 1,
            CastlePerms::WQC => 2,
            CastlePerms::BKC => 4,
            CastlePerms::BQC => 8,
        }
    }

    /// The right of `color` on the king side or, if `king_side` is false, the queen side.
    pub open spec fn spec_of(color: Color, king_side: bool) -> CastlePerms {
        match (color, king_side) {
            (Color::White, true) => CastlePerms::WKC,
            (Color::White, false) => CastlePerms::WQC,
            (Color::Black, true) => CastlePerms::BKC,
            (Color::Black, false) => CastlePerms::BQC,
        }
    }

    /// The right of `color` on the given side of the board.
    #[verifier::when_used_as_spec(spec_of)]
    pub fn of(color: Color, king_side: bool) -> (r: CastlePerms)
        ensures
            r == Self::spec_of(color, king_side),
    {
        match (color, king_side) {
            (Color::White, true) => CastlePerms::WKC,
            (Color::White, false) => CastlePerms::WQC,
            (Color::Black, true) => CastlePerms::BKC,
            (Color::Black, false) => CastlePerms::BQC,
        }
    }
}

impl Color {
    /// 0 for White, 1 for Black.
    pub open spec fn idx(self) -> int {
        match self {
            Color::White => 0,
            Color::Black => 1,
        }
    }

    /// The other colour.
    pub open spec fn spec_opposite(self) -> Color {
        match self {
            Color::White => Color::Black,
            Color::Black => Color::White,
        }
    }

    /// The other colour.
    #[verifier::when_used_as_spec(spec_opposite)]
    pub fn opposite(self) -> (r: Color)
        ensures
            r == self.spec_opposite(),
            r != self,
    {
        match self {
            Color::White => Color::Black,
            Color::Black => Color::White,
        }
    }

    /// The index of the value.
    pub fn to_index(self) -> (r: usize)
        ensures
            r == self.idx(),
            r < 2,
    {
        match self {
            Color::White => 0,
            Color::Black => 1,
        }
    }

    /// 1 for White, -1 for Black.
    pub open spec fn spec_factor(self) -> int {
        match self {
            Color::White => 1,
            Color::Black => -1,
        }
    }

    /// Sign that turns a White-relative score into this colour's view: 1 for White, -1 for Black.
    pub fn get_factor(self) -> (r: i32)
        ensures
            r == self.spec_factor(),
    {
        match self {
            Color::White => 1,
            Color::Black => -1,
        }
    }
}

impl PieceType {
    /// 0..=5 in the order pawn, knight, bishop, rook, queen, king.
    pub open spec fn idx(self) -> int {
        match self {
            PieceType::Pawn => 0,
            PieceType::Knight => 1,
            PieceType::Bishop => 2,
            PieceType::Rook => 3,
            PieceType::Queen => 4,
            PieceType::King => 5,
        }
    }

    /// The kind with index `i`; pawn for anything out of range.
    pub open spec fn spec_from_index(i: int) -> PieceType {
        if i == 1 {
            PieceType::Knight
        } else if i == 2 {
            PieceType::Bishop
        } else if i == 3 {
            PieceType::Rook
        } else if i == 4 {
            PieceType::Queen
        } else if i == 5 {
            PieceType::King
        } else {
            PieceType::Pawn
        }
    }

    /// The index of the value.
    pub fn to_index(self) -> (r: usize)
        ensures
            r == self.idx(),
            r < 6,
    {
        match self {
            PieceType::Pawn => 0,
            PieceType::Knight => 1,
            PieceType::Bishop => 2,
            PieceType::Rook => 3,
            PieceType::Queen => 4,
            PieceType::King => 5,
        }
    }

    /// The value with the given index.
    pub fn from_index(index: usize) -> (r: PieceType)
        requires
            index < 6,
        ensures
            r.idx() == index,
            r == Self::spec_from_index(index as int),
    {
        PIECE_TYPES[index]
    }

    /// Centipawn value.
    pub open spec fn spec_value(self) -> int {
        match self {
            PieceType::Pawn => 100,
            PieceType::Knight => 320,
            PieceType::Bishop => 330,
            PieceType::Rook => 500,
            PieceType::Queen => 900,
            PieceType::King => 100000,
        }
    }

    /// Centipawn value of this kind of piece.
    pub fn get_value(self) -> (r: i32)
        ensures
            r == self.spec_value(),
    {
        match self {
            PieceType::Pawn => PAWN_VALUE,
            PieceType::Knight => KNIGHT_VALUE,
            PieceType::Bishop => BISHOP_VALUE,
            PieceType::Rook => ROOK_VALUE,
            PieceType::Queen => QUEEN_VALUE,
            PieceType::King => KING_VALUE,
        }
    }
}

impl Piece {
    /// 0..=11 for the real pieces, White's six first; 12 for `Empty`.
    pub open spec fn idx(self) -> int {
        match self {
            Piece::WPawn => 0,
            Piece::WKnight => 1,
            Piece::WBishop => 2,
            Piece::WRook => 3,
            Piece::WQueen => 4,
            Piece::WKing => 5,
            Piece::BPawn => 6,
            Piece::BKnight => 7,
            Piece::BBishop => 8,
            Piece::BRook => 9,
            Piece::BQueen => 10,
            Piece::BKing => 11,
            Piece::Empty => 12,
        }
    }

    /// Whether this is one of the twelve pieces rather than the sentinel.
    pub open spec fn is_real(self) -> bool {
        self != Piece::Empty
    }

    /// The piece with index `i`; the sentinel for anything out of range.
    pub open spec fn spec_from_index(i: int) -> Piece {
        if i == 0 {
            Piece::WPawn
        } else if i == 1 {
            Piece::WKnight
        } else if i == 2 {
            Piece::WBishop
        } else if i == 3 {
            Piece::WRook
        } else if i == 4 {
            Piece::WQueen
        } else if i == 5 {
            Piece::WKing
        } else if i == 6 {
            Piece::BPawn
        } else if i == 7 {
            Piece::BKnight
        } else if i == 8 {
            Piece::BBishop
        } else if i == 9 {
            Piece::BRook
        } else if i == 10 {
            Piece::BQueen
        } else if i == 11 {
            Piece::BKing
        } else {
            Piece::Empty
        }
    }

    /// The piece of the given colour and kind.
    pub open spec fn spec_new(color: Color, ptype: PieceType) -> Piece {
        Self::spec_from_index(6 * color.idx() + ptype.idx())
    }

    /// The piece of the given colour and kind.
    #[verifier::when_used_as_spec(spec_new)]
    pub fn new(color: Color, ptype: PieceType) -> (r: Piece)
        ensures
            r == Self::spec_new(color, ptype),
            r.is_real(),
            r.spec_color() == color,
            r.spec_type() == ptype,
    {
        match (ptype, color) {
            (PieceType::Pawn, Color::White) => Piece::WPawn,
            (PieceType::Knight, Color::White) => Piece::WKnight,
            (PieceType::Bishop, Color::White) => Piece::WBishop,
            (PieceType::Rook, Color::White) => Piece::WRook,
            (PieceType::Queen, Color::White) => Piece::WQueen,
            (PieceType::King, Color::White) => Piece::WKing,
            (PieceType::Pawn, Color::Black) => Piece::BPawn,
            (PieceType::Knight, Color::Black) => Piece::BKnight,
            (PieceType::Bishop, Color::Black) => Piece::BBishop,
            (PieceType::Rook, Color::Black) => Piece::BRook,
            (PieceType::Queen, Color::Black) => Piece::BQueen,
            (PieceType::King, Color::Black) => Piece::BKing,
        }
    }

    /// The piece a letter stands for: upper case for White, lower case for Black, a blank for
    /// the sentinel. Any other character stands for nothing.
    pub open spec fn spec_from_char(c: char) -> Option<Piece> {
        if c == 'P' {
            Some(Piece::WPawn)
        } else if c == 'N' {
            Some(Piece::WKnight)
        } else if c == 'B' {
            Some(Piece::WBishop)
        } else if c == 'R' {
            Some(Piece::WRook)
        } else if c == 'Q' {
            Some(Piece::WQueen)
        } else if c == 'K' {
            Some(Piece::WKing)
        } else if c == 'p' {
            Some(Piece::BPawn)
        } else if c == 'n' {
            Some(Piece::BKnight)
        } else if c == 'b' {
            Some(Piece::BBishop)
        } else if c == 'r' {
            Some(Piece::BRook)
        } else if c == 'q' {
            Some(Piece::BQueen)
        } else if c == 'k' {
            Some(Piece::BKing)
        } else if c == ' ' {
            Some(Piece::Empty)
        } else {
            None
        }
    }

    /// Reads a piece letter. Fails exactly on the characters that name no piece.
    pub fn from_char(c: char) -> (r: Result<Piece, &'static str>)
        ensures
            r is Ok <==> Self::spec_from_char(c) is Some,
            r is Ok ==> Some(r->Ok_0) == Self::spec_from_char(c),
            r is Ok ==> r->Ok_0.spec_to_char() == c,
    {
        match c {
            'P' => Ok(Piece::WPawn),
            'N' => Ok(Piece::WKnight),
            'B' => Ok(Piece::WBishop),
            'R' => Ok(Piece::WRook),
            'Q' => Ok(Piece::WQueen),
            'K' => Ok(Piece::WKing),
            'p' => Ok(Piece::BPawn),
            'n' => Ok(Piece::BKnight),
            'b' => Ok(Piece::BBishop),
            'r' => Ok(Piece::BRook),
            'q' => Ok(Piece::BQueen),
            'k' => Ok(Piece::BKing),
            ' ' => Ok(Piece::Empty),
            _ => Err("Invalid piece char"),
        }
    }

    /// The letter of this piece, a blank for the sentinel.
    pub open spec fn spec_to_char(self) -> char {
        PIECE_CHARS[self.idx()]
    }

    /// The letter of this piece, a blank for the sentinel.
    #[verifier::when_used_as_spec(spec_to_char)]
    pub fn to_char(self) -> (r: char)
        ensures
            r == self.spec_to_char(),
            Self::spec_from_char(r) == Some(self),
    {
        PIECE_CHARS[self.to_index()]
    }

    /// The figurine glyph of this piece, a blank for the sentinel.
    pub fn to_char_fancy(self) -> (r: char)
        ensures
            r == PIECE_CHARS_FANCY[self.idx()],
    {
        PIECE_CHARS_FANCY[self.to_index()]
    }

    /// The index of the value.
    pub fn to_index(self) -> (r: usize)
        ensures
            r == self.idx(),
            r <= 12,
            self.is_real() <==> r < 12,
    {
        match self {
            Piece::WPawn => 0,
            Piece::WKnight => 1,
            Piece::WBishop => 2,
            Piece::WRook => 3,
            Piece::WQueen => 4,
            Piece::WKing => 5,
            Piece::BPawn => 6,
            Piece::BKnight => 7,
            Piece::BBishop => 8,
            Piece::BRook => 9,
            Piece::BQueen => 10,
            Piece::BKing => 11,
            Piece::Empty => 12,
        }
    }

    /// The value with the given index.
    pub fn from_index(index: usize) -> (r: Piece)
        requires
            index < 12,
        ensures
            r == Self::spec_from_index(index as int),
            r.idx() == index,
            r.is_real(),
    {
        PIECES[index]
    }

    /// Colour of a real piece. For the sentinel the value is White and means nothing.
    pub open spec fn spec_color(self) -> Color {
        if self.idx() >= 6 && self.idx() < 12 {
            Color::Black
        } else {
            Color::White
        }
    }

    /// The colour of a real piece.
    #[verifier::when_used_as_spec(spec_color)]
    pub fn get_color(self) -> (r: Color)
        requires
            self.is_real(),
        ensures
            r == self.spec_color(),
    {
        match self {
            Piece::WPawn | Piece::WKnight | Piece::WBishop | Piece::WRook | Piece::WQueen | Piece::WKing => Color::White,
            _ => Color::Black,
        }
    }

    /// Kind of a real piece. For the sentinel the value is pawn and means nothing.
    pub open spec fn spec_type(self) -> PieceType {
        PieceType::spec_from_index(self.idx() % 6)
    }

    /// The kind of a real piece.
    #[verifier::when_used_as_spec(spec_type)]
    pub fn get_type(self) -> (r: PieceType)
        requires
            self.is_real(),
        ensures
            r == self.spec_type(),
            Self::spec_new(self.spec_color(), r) == self,
    {
        match self {
            Piece::WPawn | Piece::BPawn => PieceType::Pawn,
            Piece::WKnight | Piece::BKnight => PieceType::Knight,
            Piece::WBishop | Piece::BBishop => PieceType::Bishop,
            Piece::WRook | Piece::BRook => PieceType::Rook,
            Piece::WQueen | Piece::BQueen => PieceType::Queen,
            _ => PieceType::King,
        }
    }

    /// Centipawn value of a real piece: that of its kind.
    pub open spec fn spec_value(self) -> int {
        self.spec_type().spec_value()
    }

    /// Centipawn value.
    pub fn get_value(self) -> (r: i32)
        requires
            self.is_real(),
        ensures
            r == self.spec_value(),
            100 <= r <= 100000,
    {
        self.get_type().get_value()
    }

    /// Whether both indices lie on the same side of the White/Black divide. The sentinel
    /// counts with Black.
    pub fn is_same_color(self, other: Piece) -> (r: bool)
        ensures
            r == ((self.idx() < 6) == (other.idx() < 6)),
            self.is_real() && other.is_real() ==> r == (self.spec_color() == other.spec_color()),
    {
        (self.to_index() < 6) == (other.to_index() < 6)
    }

    /// Whether both are of one kind. The sentinel counts as a pawn.
    pub fn is_same_type(self, other: Piece) -> (r: bool)
        ensures
            r == (self.idx() % 6 == other.idx() % 6),
            r == (self.spec_type() == other.spec_type()),
    {
        self.to_index() % 6 == other.to_index() % 6
    }

    /// Whether the piece is a pawn.
    pub fn is_pawn(self) -> (r: bool)
        ensures
            r == (self == Piece::WPawn || self == Piece::BPawn),
            self.is_real() ==> r == (self.spec_type() == PieceType::Pawn),
    {
        matches!(self, Piece::WPawn | Piece::BPawn)
    }

    /// Whether the piece is a bishop.
    pub fn is_bishop(self) -> (r: bool)
        ensures
            r == (self.spec_type() == PieceType::Bishop),
    {
        matches!(self, Piece::WBishop | Piece::BBishop)
    }

    /// Whether the piece is a knight.
    pub fn is_knight(self) -> (r: bool)
        ensures
            r == (self.spec_type() == PieceType::Knight),
    {
        matches!(self, Piece::WKnight | Piece::BKnight)
    }

    /// Whether the piece is a rook.
    pub fn is_rook(self) -> (r: bool)
        ensures
            r == (self.spec_type() == PieceType::Rook),
    {
        matches!(self, Piece::WRook | Piece::BRook)
    }

    /// Whether the piece is a queen.
    pub fn is_queen(self) -> (r: bool)
        ensures
            r == (self.spec_type() == PieceType::Queen),
    {
        matches!(self, Piece::WQueen | Piece::BQueen)
    }

    /// Whether the piece is a king.
    pub fn is_king(self) -> (r: bool)
        ensures
            r == (self.spec_type() == PieceType::King),
    {
        matches!(self, Piece::WKing | Piece::BKing)
    }

    /// Whether the piece moves along rays: rook, bishop or queen.
    pub fn is_slider(self) -> (r: bool)
        ensures
            r == (self.spec_type() == PieceType::Rook || self.spec_type() == PieceType::Bishop
                || self.spec_type() == PieceType::Queen),
    {
        self.is_rook() || self.is_bishop() || self.is_queen()
    }
}

/// Every real piece is the piece of its own colour and kind, and `new` ranges over
/// exactly the real pieces.
pub proof fn lemma_piece_new_roundtrip(p: Piece)
    requires
        p.is_real(),
    ensures
        Piece::spec_new(p.spec_color(), p.spec_type()) == p,
        Piece::spec_from_index(p.idx()) == p,
        p.idx() == 6 * p.spec_color().idx() + p.spec_type().idx(),
{
}

/// The colour and kind handed to `new` are those of the resulting piece.
pub proof fn lemma_piece_new_parts(c: Color, t: PieceType)
    ensures
        Piece::spec_new(c, t).is_real(),
        Piece::spec_new(c, t).spec_color() == c,
        Piece::spec_new(c, t).spec_type() == t,
        Piece::spec_new(c, t).idx() == 6 * c.idx() + t.idx(),
{
}

} // verus!
