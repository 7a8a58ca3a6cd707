//! Squares, files and ranks of the board.

use crate::bitboard::Bitboard;
use vstd::prelude::*;
use vstd::string::StringExecFns;

verus! {

/// A square of the board. A1 has index 0, H1 index 7, A8 index 56 and H8 index 63.
#[derive(Copy, Clone, PartialEq, Eq, Debug, Hash, Structural)]
pub enum Square {
    A1, B1, C1, D1, E1, F1, G1, H1,
    A2, B2, C2, D2, E2, F2, G2, H2,
    A3, B3, C3, D3, E3, F3, G3, H3,
    A4, B4, C4, D4, E4, F4, G4, H4,
    A5, B5, C5, D5, E5, F5, G5, H5,
    A6, B6, C6, D6, E6, F6, G6, H6,
    A7, B7, C7, D7, E7, F7, G7, H7,
    A8, B8, C8, D8, E8, F8, G8, H8,
}

/// A column of the board, from the a-file to the h-file.
#[derive(Copy, Clone, PartialEq, Eq, Debug, Hash, Structural)]
pub enum File {
    FA,
    FB,
    FC,
    FD,
    FE,
    FF,
    FG,
    FH,
}

/// A row of the board, from White's back rank to Black's.
#[derive(Copy, Clone, PartialEq, Eq, Debug, Hash, Structural)]
pub enum Rank {
    R1,
    R2,
    R3,
    R4,
    R5,
    R6,
    R7,
    R8,
}

/// All squares in index order.
pub const SQUARES: [Square; 64] = [
    Square::A1, Square::B1, Square::C1, Square::D1, Square::E1, Square::F1, Square::G1, Square::H1,
    Square::A2, Square::B2, Square::C2, Square::D2, Square::E2, Square::F2, Square::G2, Square::H2,
    Square::A3, Square::B3, Square::C3, Square::D3, Square::E3, Square::F3, Square::G3, Square::H3,
    Square::A4, Square::B4, Square::C4, Square::D4, Square::E4, Square::F4, Square::G4, Square::H4,
    Square::A5, Square::B5, Square::C5, Square::D5, Square::E5, Square::F5, Square::G5, Square::H5,
    Square::A6, Square::B6, Square::C6, Square::D6, Square::E6, Square::F6, Square::G6, Square::H6,
    Square::A7, Square::B7, Square::C7, Square::D7, Square::E7, Square::F7, Square::G7, Square::H7,
    Square::A8, Square::B8, Square::C8, Square::D8, Square::E8, Square::F8, Square::G8, Square::H8,
];

/// All files in index order.
pub const FILES: [File; 8] = [
    File::FA, File::FB, File::FC, File::FD, File::FE, File::FF, File::FG, File::FH,
];

/// All ranks in index order.
pub const RANKS: [Rank; 8] = [
    Rank::R1, Rank::R2, Rank::R3, Rank::R4, Rank::R5, Rank::R6, Rank::R7, Rank::R8,
];

impl Square {
    /// Index of the square: eight times the rank index plus the file index.
    #[verifier::opaque]
    pub open spec fn idx(self) -> int {
        match self {
            Square::A1 => 0,
            Square::B1 => 1,
            Square::C1 => 2,
            Square::D1 => 3,
            Square::E1 => 4,
            Square::F1 => 5,
            Square::G1 => 6,
            Square::H1 => 7,
            Square::A2 => 8,
            Square::B2 => 9,
            Square::C2 => 10,
            Square::D2 => 11,
            Square::E2 => 12,
            Square::F2 => 13,
            Square::G2 => 14,
            Square::H2 => 15,
            Square::A3 => 16,
            Square::B3 => 17,
            Square::C3 => 18,
            Square::D3 => 19,
            Square::E3 => 20,
            Square::F3 => 21,
            Square::G3 => 22,
            Square::H3 => 23,
            Square::A4 => 24,
            Square::B4 => 25,
            Square::C4 => 26,
            Square::D4 => 27,
            Square::E4 => 28,
            Square::F4 => 29,
            Square::G4 => 30,
            Square::H4 => 31,
            Square::A5 => 32,
            Square::B5 => 33,
            Square::C5 => 34,
            Square::D5 => 35,
            Square::E5 => 36,
            Square::F5 => 37,
            Square::G5 => 38,
            Square::H5 => 39,
            Square::A6 => 40,
            Square::B6 => 41,
            Square::C6 => 42,
            Square::D6 => 43,
            Square::E6 => 44,
            Square::F6 => 45,
            Square::G6 => 46,
            Square::H6 => 47,
            Square::A7 => 48,
            Square::B7 => 49,
            Square::C7 => 50,
            Square::D7 => 51,
            Square::E7 => 52,
            Square::F7 => 53,
            Square::G7 => 54,
            Square::H7 => 55,
            Square::A8 => 56,
            Square::B8 => 57,
            Square::C8 => 58,
            Square::D8 => 59,
            Square::E8 => 60,
            Square::F8 => 61,
            Square::G8 => 62,
            Square::H8 => 63,
        }
    }

    /// The square with index `i`, for `0 <= i < 64`.
    pub open spec fn spec_from_index(i: int) -> Square {
        SQUARES[i]
    }

    /// Index of the file the square is on.
    pub open spec fn file_idx(self) -> int {
        self.idx() % 8
    }

    /// Index of the rank the square is on.
    pub open spec fn rank_idx(self) -> int {
        self.idx() / 8
    }

    /// The square on the given file and rank.
    pub fn from_file_rank(file: File, rank: Rank) -> (r: Square)
        ensures
            r.idx() == 8 * rank.idx() + file.idx(),
            r.file_idx() == file.idx(),
            r.rank_idx() == rank.idx(),
    {
        proof {
            lemma_square_from_index(8 * rank.idx() + file.idx());
        }
        SQUARES[rank.to_index() * 8 + file.to_index()]
    }

    /// The value with the given index.
    pub fn from_index(index: usize) -> (r: Square)
        requires
            index < 64,
        ensures
            r.idx() == index,
            r == Self::spec_from_index(index as int),
    {
        proof {
            lemma_square_from_index(index as int);
        }
        SQUARES[index]
    }

    /// What the first two characters of `s` name as a square, if they are a file letter
    /// `a`..`h` followed by a rank digit `1`..`8`.
    pub open spec fn spec_from_string(s: Seq<char>) -> Option<Square> {
        if s.len() >= 2 && 'a' <= s[0] <= 'h' && '1' <= s[1] <= '8' {
            Some(Self::spec_from_index(8 * (s[1] as int - '1' as int) + (s[0] as int - 'a' as int)))
        } else {
            None
        }
    }

    /// Reads a square in algebraic notation from the first two characters of `s`.
    /// Fails exactly when they do not name a square between a1 and h8.
    pub fn from_string(s: &str) -> (r: Result<Square, &'static str>)
        ensures
            r is Ok <==> Self::spec_from_string(s@) is Some,
            r is Ok ==> Some(r->Ok_0) == Self::spec_from_string(s@),
    {
        if s.unicode_len() < 2 {
            return Err("Invalid square");
        }
        let file: char = s.get_char(0);
        let rank: char = s.get_char(1);
        if file < 'a' || file > 'h' || rank < '1' || rank > '8' {
            return Err("Invalid square");
        }
        let f: usize = (file as u32 - 'a' as u32) as usize;
        let k: usize = (rank as u32 - '1' as u32) as usize;
        Ok(Square::from_index(8 * k + f))
    }

    /// The rank the square is on.
    pub fn get_rank(self) -> (r: Rank)
        ensures
            r.idx() == self.rank_idx(),
    {
        RANKS[self.to_index() / 8]
    }

    /// The file the square is on.
    pub fn get_file(self) -> (r: File)
        ensures
            r.idx() == self.file_idx(),
    {
        FILES[self.to_index() % 8]
    }

    /// The rank and the file the square is on.
    pub fn get_rank_file(self) -> (r: (Rank, File))
        ensures
            r.0.idx() == self.rank_idx(),
            r.1.idx() == self.file_idx(),
    {
        (self.get_rank(), self.get_file())
    }

    /// The board that holds this square and no other.
    pub fn to_bitboard(&self) -> (r: Bitboard)
        ensures
            r == Bitboard::spec_from_square(*self),
    {
        Bitboard::new_from_square(*self)
    }

    /// The square in algebraic notation: its file letter, then its rank digit.
    pub open spec fn spec_to_string(self) -> Seq<char> {
        seq![File::spec_letter(self.file_idx()), Rank::spec_digit(self.rank_idx())]
    }

    /// The square in algebraic notation.
    pub fn to_string(self) -> (r: String)
        ensures
            r@ == self.spec_to_string(),
            Self::spec_from_string(r@) == Some(self),
    {
        let mut s = String::from_str(self.get_file().letter_str());
        s.append(self.get_rank().digit_str());
        proof {
            lemma_square_index(self, self);
            assert(s@ =~= self.spec_to_string());
        }
        s
    }

    /// The index of the value.
    pub fn to_index(self) -> (r: usize)
        ensures
            r == self.idx(),
            r < 64,
    {
        reveal(Square::idx);
        match self {
            Square::A1 => 0,
            Square::B1 => 1,
            Square::C1 => 2,
            Square::D1 => 3,
            Square::E1 => 4,
            Square::F1 => 5,
            Square::G1 => 6,
            Square::H1 => 7,
            Square::A2 => 8,
            Square::B2 => 9,
            Square::C2 => 10,
            Square::D2 => 11,
            Square::E2 => 12,
            Square::F2 => 13,
            Square::G2 => 14,
            Square::H2 => 15,
            Square::A3 => 16,
            Square::B3 => 17,
            Square::C3 => 18,
            Square::D3 => 19,
            Square::E3 => 20,
            Square::F3 => 21,
            Square::G3 => 22,
            Square::H3 => 23,
            Square::A4 => 24,
            Square::B4 => 25,
            Square::C4 => 26,
            Square::D4 => 27,
            Square::E4 => 28,
            Square::F4 => 29,
            Square::G4 => 30,
            Square::H4 => 31,
            Square::A5 => 32,
            Square::B5 => 33,
            Square::C5 => 34,
            Square::D5 => 35,
            Square::E5 => 36,
            Square::F5 => 37,
            Square::G5 => 38,
            Square::H5 => 39,
            Square::A6 => 40,
            Square::B6 => 41,
            Square::C6 => 42,
            Square::D6 => 43,
            Square::E6 => 44,
            Square::F6 => 45,
            Square::G6 => 46,
            Square::H6 => 47,
            Square::A7 => 48,
            Square::B7 => 49,
            Square::C7 => 50,
            Square::D7 => 51,
            Square::E7 => 52,
            Square::F7 => 53,
            Square::G7 => 54,
            Square::H7 => 55,
            Square::A8 => 56,
            Square::B8 => 57,
            Square::C8 => 58,
            Square::D8 => 59,
            Square::E8 => 60,
            Square::F8 => 61,
            Square::G8 => 62,
            Square::H8 => 63,
        }
    }

    /// Whether the rank index plus the file index's parity comes to one.
    pub fn is_light(self) -> (r: bool)
        ensures
            r == (self.rank_idx() + self.file_idx() % 2 == 1),
    {
        self.get_rank().to_index() + self.get_file().to_index() % 2 == 1
    }

    /// Whether the rank index plus the file index's parity comes to zero.
    pub fn is_dark(self) -> (r: bool)
        ensures
            r == (self.rank_idx() + self.file_idx() % 2 == 0),
    {
        self.get_rank().to_index() + self.get_file().to_index() % 2 == 0
    }

    /// The square whose index is this one's successor, taken modulo eight.
    pub fn get_next(self) -> (r: Square)
        ensures
            r.idx() == (self.idx() + 1) % 8,
    {
        proof {
            lemma_square_index(self, self);
            lemma_square_from_index((self.idx() + 1) % 8);
        }
        SQUARES[(self.to_index() + 1) % 8]
    }

    /// The square whose index is this one's predecessor, taken modulo eight.
    pub fn get_prev(self) -> (r: Square)
        requires
            self != Square::A1,
        ensures
            r.idx() == (self.idx() - 1) % 8,
    {
        proof {
            lemma_square_index(self, self);
            lemma_square_from_index((self.idx() - 1) % 8);
        }
        SQUARES[(self.to_index() - 1) % 8]
    }

    /// The square `n` ranks up, wrapping round the top of the board.
    pub fn move_up(self, n: u8) -> (r: Square)
        ensures
            r.idx() == (self.idx() + 8 * n) % 64,
            self.rank_idx() + n < 8 ==> r.idx() == self.idx() + 8 * n,
    {
        proof {
            lemma_square_index(self, self);
            lemma_square_from_index((self.idx() + 8 * n) % 64);
        }
        SQUARES[(self.to_index() + n as usize * 8) % 64]
    }

    /// The square `n` ranks down.
    pub fn move_down(self, n: u8) -> (r: Square)
        requires
            8 * n <= self.idx(),
        ensures
            r.idx() == self.idx() - 8 * n,
    {
        proof {
            lemma_square_index(self, self);
            lemma_square_from_index(self.idx() - 8 * n);
        }
        SQUARES[(self.to_index() - n as usize * 8) % 64]
    }

    /// The square `n` steps back in index order.
    pub fn move_left(self, n: u8) -> (r: Square)
        requires
            n <= self.idx(),
        ensures
            r.idx() == self.idx() - n,
    {
        proof {
            lemma_square_index(self, self);
            lemma_square_from_index(self.idx() - n);
        }
        SQUARES[(self.to_index() - n as usize) % 64]
    }

    /// The square `n` steps on in index order, wrapping round the end of the board.
    pub fn move_right(self, n: u8) -> (r: Square)
        ensures
            r.idx() == (self.idx() + n) % 64,
            self.idx() + n < 64 ==> r.idx() == self.idx() + n,
    {
        proof {
            lemma_square_index(self, self);
            lemma_square_from_index((self.idx() + n) % 64);
        }
        SQUARES[(self.to_index() + n as usize) % 64]
    }

    /// The square seen from the other side of the board: index `63 - idx`.
    pub fn flip(self) -> (r: Square)
        ensures
            r.idx() == 63 - self.idx(),
    {
        proof {
            lemma_square_index(self, self);
            lemma_square_from_index(63 - self.idx());
        }
        SQUARES[63 - self.to_index()]
    }
}

impl File {
    /// 0 for the a-file up to 7 for the h-file.
    pub open spec fn idx(self) -> int {
        match self {
            File::FA => 0,
            File::FB => 1,
            File::FC => 2,
            File::FD => 3,
            File::FE => 4,
            File::FF => 5,
            File::FG => 6,
            File::FH => 7,
        }
    }

    /// The letter of the file with index `i`.
    pub open spec fn spec_letter(i: int) -> char {
        if i == 0 {
            'a'
        } else if i == 1 {
            'b'
        } else if i == 2 {
            'c'
        } else if i == 3 {
            'd'
        } else if i == 4 {
            'e'
        } else if i == 5 {
            'f'
        } else if i == 6 {
            'g'
        } else {
            'h'
        }
    }

    /// The index of the value.
    pub fn to_index(self) -> (r: usize)
        ensures
            r == self.idx(),
            r < 8,
    {
        match self {
            File::FA => 0,
            File::FB => 1,
            File::FC => 2,
            File::FD => 3,
            File::FE => 4,
            File::FF => 5,
            File::FG => 6,
            File::FH => 7,
        }
    }

    /// The file's letter as a one-character string.
    pub fn letter_str(self) -> (r: &'static str)
        ensures
            r@ == seq![Self::spec_letter(self.idx())],
    {
        proof {
            reveal_strlit("a");
            reveal_strlit("b");
            reveal_strlit("c");
            reveal_strlit("d");
            reveal_strlit("e");
            reveal_strlit("f");
            reveal_strlit("g");
            reveal_strlit("h");
        }
        let r = match self {
            File::FA => "a",
            File::FB => "b",
            File::FC => "c",
            File::FD => "d",
            File::FE => "e",
            File::FF => "f",
            File::FG => "g",
            File::FH => "h",
        };
        assert(r@ =~= seq![Self::spec_letter(self.idx())]);
        r
    }

    /// The value with the given index.
    pub fn from_index(index: usize) -> (r: File)
        requires
            index < 8,
        ensures
            r.idx() == index,
    {
        FILES[index]
    }

    /// The file to the right, the a-file after the h-file.
    pub fn get_next(self) -> (r: File)
        ensures
            r.idx() == (self.idx() + 1) % 8,
    {
        FILES[(self.to_index() + 1) % 8]
    }

    /// The file `n` to the right, wrapping round the board's edge.
    pub fn get_next_n(self, n: u8) -> (r: File)
        requires
            self.idx() + n <= u8::MAX,
        ensures
            r.idx() == (self.idx() + n) % 8,
    {
        FILES[(self.to_index() + n as usize) % 8]
    }

    /// The file to the left.
    pub fn get_prev(self) -> (r: File)
        requires
            self != File::FA,
        ensures
            r.idx() == self.idx() - 1,
    {
        FILES[self.to_index() - 1]
    }

    /// The file `n` to the left. `n` is read as a signed byte: a value above 127
    /// steps the other way by `256 - n`, wrapping round the board's edge.
    pub fn get_prev_n(self, n: u8) -> (r: File)
        requires
            n <= self.idx() || n >= self.idx() + 129,
        ensures
            n <= self.idx() ==> r.idx() == self.idx() - n,
            n > self.idx() ==> r.idx() == (self.idx() + 256 - n) % 8,
    {
        let i = self.to_index();
        let k = n as usize;
        if k <= i {
            FILES[i - k]
        } else {
            FILES[(i + 256 - k) % 8]
        }
    }
}

impl Rank {
    /// 0 for the first rank up to 7 for the eighth.
    pub open spec fn idx(self) -> int {
        match self {
            Rank::R1 => 0,
            Rank::R2 => 1,
            Rank::R3 => 2,
            Rank::R4 => 3,
            Rank::R5 => 4,
            Rank::R6 => 5,
            Rank::R7 => 6,
            Rank::R8 => 7,
        }
    }

    /// The digit of the rank with index `i`.
    pub open spec fn spec_digit(i: int) -> char {
        if i == 0 {
            '1'
        } else if i == 1 {
            '2'
        } else if i == 2 {
            '3'
        } else if i == 3 {
            '4'
        } else if i == 4 {
            '5'
        } else if i == 5 {
            '6'
        } else if i == 6 {
            '7'
        } else {
            '8'
        }
    }

    /// The index of the value.
    pub fn to_index(self) -> (r: usize)
        ensures
            r == self.idx(),
            r < 8,
    {
        match self {
            Rank::R1 => 0,
            Rank::R2 => 1,
            Rank::R3 => 2,
            Rank::R4 => 3,
            Rank::R5 => 4,
            Rank::R6 => 5,
            Rank::R7 => 6,
            Rank::R8 => 7,
        }
    }

    /// The rank's digit as a one-character string.
    pub fn digit_str(self) -> (r: &'static str)
        ensures
            r@ == seq![Self::spec_digit(self.idx())],
    {
        proof {
            reveal_strlit("1");
            reveal_strlit("2");
            reveal_strlit("3");
            reveal_strlit("4");
            reveal_strlit("5");
            reveal_strlit("6");
            reveal_strlit("7");
            reveal_strlit("8");
        }
        let r = match self {
            Rank::R1 => "1",
            Rank::R2 => "2",
            Rank::R3 => "3",
            Rank::R4 => "4",
            Rank::R5 => "5",
            Rank::R6 => "6",
            Rank::R7 => "7",
            Rank::R8 => "8",
        };
        assert(r@ =~= seq![Self::spec_digit(self.idx())]);
        r
    }

    /// The value with the given index.
    pub fn from_index(index: usize) -> (r: Rank)
        requires
            index < 8,
        ensures
            r.idx() == index,
    {
        RANKS[index]
    }

    /// The rank above, the first after the eighth.
    pub fn get_next(self) -> (r: Rank)
        ensures
            r.idx() == (self.idx() + 1) % 8,
    {
        RANKS[(self.to_index() + 1) % 8]
    }

    /// The rank `n` above, wrapping round the board's edge.
    pub fn get_next_n(self, n: u8) -> (r: Rank)
        requires
            self.idx() + n <= u8::MAX,
        ensures
            r.idx() == (self.idx() + n) % 8,
    {
        RANKS[(self.to_index() + n as usize) % 8]
    }

    /// The rank below.
    pub fn get_prev(self) -> (r: Rank)
        requires
            self != Rank::R1,
        ensures
            r.idx() == self.idx() - 1,
    {
        RANKS[self.to_index() - 1]
    }

    /// The rank `n` below. `n` is read as a signed byte: a value above 127
    /// steps the other way by `256 - n`, wrapping round the board's edge.
    pub fn get_prev_n(self, n: u8) -> (r: Rank)
        requires
            n <= self.idx() || n >= self.idx() + 129,
        ensures
            n <= self.idx() ==> r.idx() == self.idx() - n,
            n > self.idx() ==> r.idx() == (self.idx() + 256 - n) % 8,
    {
        let i = self.to_index();
        let k = n as usize;
        if k <= i {
            RANKS[i - k]
        } else {
            RANKS[(i + 256 - k) % 8]
        }
    }
}

/// A square is determined by its index, and every index below 64 is some square's.
pub proof fn lemma_square_index(a: Square, b: Square)
    ensures
        0 <= a.idx() < 64,
        Square::spec_from_index(a.idx()) == a,
        a.idx() == b.idx() ==> a == b,
{
    reveal(Square::idx);
}

/// The square with a given index has that index.
pub proof fn lemma_square_from_index(i: int)
    requires
        0 <= i < 64,
    ensures
        Square::spec_from_index(i).idx() == i,
{
    reveal(Square::idx);
}

} // verus!
