//! Attacks on the board and the static evaluation of a position.

use crate::attack_pregen::PregenAttacks;
use crate::bitboard::{bit, lemma_view_finite, Bitboard};
use crate::board_state::{count_of, BoardState};
use crate::piece::{Color, Piece, PieceType};
use crate::piece_square_table::Phase;
use crate::square::{lemma_square_index, File, Square};
use vstd::prelude::*;

verus! {

/// Penalty for each file that holds more than one pawn of a side.
pub const DOUBLED_PAWN_PENALTY: i32 = 10;

/// Penalty for each file whose pawns have no pawn of their side on a neighbouring file.
pub const ISOLATED_PAWN_PENALTY: i32 = 10;

/// Bonus for each pawn that has no enemy pawn on its file.
pub const OPEN_PAWN_BONUS: i32 = 20;

/// Penalty for each enemy rook or queen that attacks the king.
pub const KING_ATTACKER_PENALTY: i32 = 10;

/// Bonus for each file near the king that holds a pawn of the king's side.
pub const PAWN_SHIELD_BONUS: i32 = 5;

/// Penalty for being in check.
pub const CHECK_PENALTY: i32 = 100;

/// The counts of the twelve pieces on the first `n` squares, summed.
pub open spec fn total_count(board: Seq<Option<Piece>>, n: int) -> int {
    count_of(board, Piece::WPawn, n) + count_of(board, Piece::WKnight, n) + count_of(board, Piece::WBishop, n) + count_of(
        board,
        Piece::WRook,
        n,
    ) + count_of(board, Piece::WQueen, n) + count_of(board, Piece::WKing, n) + count_of(board, Piece::BPawn, n) + count_of(
        board,
        Piece::BKnight,
        n,
    ) + count_of(board, Piece::BBishop, n) + count_of(board, Piece::BRook, n) + count_of(board, Piece::BQueen, n)
        + count_of(board, Piece::BKing, n)
}

/// No more pieces stand on the first `n` squares than there are squares.
pub proof fn lemma_total_count(board: Seq<Option<Piece>>, n: int)
    requires
        0 <= n,
    ensures
        0 <= total_count(board, n) <= n,
        0 <= count_of(board, Piece::WPawn, n),
        0 <= count_of(board, Piece::WKnight, n),
        0 <= count_of(board, Piece::WBishop, n),
        0 <= count_of(board, Piece::WRook, n),
        0 <= count_of(board, Piece::WQueen, n),
        0 <= count_of(board, Piece::WKing, n),
        0 <= count_of(board, Piece::BPawn, n),
        0 <= count_of(board, Piece::BKnight, n),
        0 <= count_of(board, Piece::BBishop, n),
        0 <= count_of(board, Piece::BRook, n),
        0 <= count_of(board, Piece::BQueen, n),
        0 <= count_of(board, Piece::BKing, n),
    decreases n,
{
    if n > 0 {
        lemma_total_count(board, n - 1);
    }
}

impl BoardState {
    /// The occupied squares as one word.
    pub open spec fn occupancy(self) -> u64 {
        self.position_bb[0].0 | self.position_bb[1].0
    }

    /// The squares attacked by the piece on square `q`; none if the square is empty.
    pub open spec fn attack_set_at(self, q: int) -> Set<int> {
        match self.board@[q] {
            Some(p) => PregenAttacks::spec_piece_attacks(p.spec_type(), p.spec_color(), q, self.occupancy()),
            None => Set::empty(),
        }
    }

    /// Whether square `q` holds a piece of colour `by` that attacks square `s`.
    pub open spec fn attacks_from(self, q: int, s: int, by: Color) -> bool {
        &&& 0 <= q < 64
        &&& self.board@[q] is Some
        &&& self.board@[q]->Some_0.spec_color() == by
        &&& self.attack_set_at(q).contains(s)
    }

    /// Whether some piece of colour `by` attacks square `s`.
    pub open spec fn is_attacked(self, s: int, by: Color) -> bool {
        exists|q: int| self.attacks_from(q, s, by)
    }

    /// Whether a king of `side` stands on a square that the other side attacks.
    pub open spec fn spec_is_check(self, side: Color) -> bool {
        exists|k: int|
            0 <= k < 64 && self.board@[k] == Some(Piece::spec_new(side, PieceType::King)) && #[trigger] self.is_attacked(
                k,
                side.spec_opposite(),
            )
    }

    /// All squares that some piece of `color` attacks.
    pub fn attacked_squares(&self, color: Color, pregen_attacks: &PregenAttacks) -> (r: Bitboard)
        requires
            self.wf(),
        ensures
            forall|s: int| r@.contains(s) <==> self.is_attacked(s, color),
    {
        let occ = self.get_combined_bb();
        let mut acc = Bitboard::new_empty();
        let mut i: usize = 0;
        proof {
            reveal(BoardState::bitboards_ok);
        }
        while i < 64
            invariant
                i <= 64,
                occ.0 == self.occupancy(),
                crate::zobrist::no_sentinel(self.board@),
                forall|s: int| acc@.contains(s) <==> exists|q: int| q < i && self.attacks_from(q, s, color),
            decreases 64 - i,
        {
            let ghost prev = acc;
            if let Some(p) = self.board[i] {
                if p.get_color() == color {
                    let sq = Square::from_index(i);
                    let a = pregen_attacks.get_piece_attacks(p.get_type(), color, sq, occ);
                    acc = acc.combine(a);
                }
            }
            proof {
                assert forall|s: int| acc@.contains(s) <==> exists|q: int| q < i + 1 && self.attacks_from(q, s, color) by {
                    if acc@.contains(s) {
                        if prev@.contains(s) {
                            let q = choose|q: int| q < i && self.attacks_from(q, s, color);
                            assert(q < i + 1 && self.attacks_from(q, s, color));
                        } else {
                            assert(self.attacks_from(i as int, s, color));
                        }
                    }
                    if exists|q: int| q < i + 1 && self.attacks_from(q, s, color) {
                        let q = choose|q: int| q < i + 1 && self.attacks_from(q, s, color);
                        if q < i {
                            assert(prev@.contains(s));
                        }
                    }
                }
            }
            i = i + 1;
        }
        proof {
            assert forall|s: int| acc@.contains(s) <==> self.is_attacked(s, color) by {
                if acc@.contains(s) {
                    let q = choose|q: int| q < 64 && self.attacks_from(q, s, color);
                    assert(self.attacks_from(q, s, color));
                }
                if self.is_attacked(s, color) {
                    let q = choose|q: int| self.attacks_from(q, s, color);
                    assert(q < 64 && self.attacks_from(q, s, color));
                }
            }
        }
        acc
    }

    /// Whether `side` is in check.
    pub fn is_check(&self, side: Color, pregen_attacks: &PregenAttacks) -> (r: bool)
        requires
            self.wf(),
        ensures
            r == self.spec_is_check(side),
    {
        let king = Piece::new(side, PieceType::King);
        let kings = self.get_piece_bb(king);
        if kings.is_empty() {
            proof {
                reveal(BoardState::bitboards_ok);
                lemma_view_finite(kings);
                assert forall|k: int| 0 <= k < 64 implies self.board@[k] != Some(king) by {
                    assert(bit(self.piece_bb[king.idx()].0, k) == kings@.contains(k));
                    if kings@.contains(k) {
                        kings@.lemma_len0_is_empty();
                    }
                }
            }
            return false;
        }
        let attacked = self.attacked_squares(side.opposite(), pregen_attacks);
        let hit = attacked.intersect(kings);
        proof {
            reveal(BoardState::bitboards_ok);
            lemma_view_finite(hit);
            if hit.0 != 0 {
                crate::bitboard::lemma_clear_lowest(hit.0);
                let k = vstd::std_specs::bits::u64_trailing_zeros(hit.0) as int;
                assert(hit@.contains(k));
                assert(attacked@.contains(k) && kings@.contains(k));
                assert(bit(self.piece_bb[king.idx()].0, k));
                assert(self.is_attacked(k, side.spec_opposite()));
            } else {
                assert forall|k: int|
                    0 <= k < 64 && self.board@[k] == Some(king) implies !#[trigger] self.is_attacked(
                    k,
                    side.spec_opposite(),
                ) by {
                    assert(bit(self.piece_bb[king.idx()].0, k));
                    assert(kings@.contains(k));
                    if attacked@.contains(k) {
                        assert(hit@.contains(k));
                        hit@.lemma_len0_is_empty();
                    }
                }
            }
        }
        !hit.is_empty()
    }

    /// Number of pieces on the board, by the counts kept.
    pub open spec fn spec_num_pieces(self) -> int {
        self.piece_counts[0] + self.piece_counts[1] + self.piece_counts[2] + self.piece_counts[3] + self.piece_counts[4]
            + self.piece_counts[5] + self.piece_counts[6] + self.piece_counts[7] + self.piece_counts[8]
            + self.piece_counts[9] + self.piece_counts[10] + self.piece_counts[11]
    }

    /// Number of pieces on the board.
    pub fn get_num_pieces(&self) -> (r: u8)
        requires
            self.wf(),
        ensures
            r == self.spec_num_pieces(),
            r == self.piece_counts[0] + self.piece_counts[1] + self.piece_counts[2] + self.piece_counts[3]
                + self.piece_counts[4] + self.piece_counts[5] + self.piece_counts[6] + self.piece_counts[7]
                + self.piece_counts[8] + self.piece_counts[9] + self.piece_counts[10] + self.piece_counts[11],
            r <= 64,
    {
        proof {
            reveal(BoardState::counts_ok);
            lemma_total_count(self.board@, 64);
        }
        let c = &self.piece_counts;
        c[0] + c[1] + c[2] + c[3] + c[4] + c[5] + c[6] + c[7] + c[8] + c[9] + c[10] + c[11]
    }

    /// Number of knights, bishops, rooks and queens of both sides.
    pub open spec fn officers(self) -> int {
        self.piece_counts[1] + self.piece_counts[2] + self.piece_counts[3] + self.piece_counts[4] + self.piece_counts[7]
            + self.piece_counts[8] + self.piece_counts[9] + self.piece_counts[10]
    }

    /// The phase of the game: the opening while more than twelve officers are on the
    /// board, the endgame after that.
    pub open spec fn spec_phase(self) -> Phase {
        if self.officers() > 12 {
            Phase::Opening
        } else {
            Phase::Endgame
        }
    }

    /// The phase of the game.
    pub fn get_phase(&self) -> (r: Phase)
        ensures
            r == self.spec_phase(),
    {
        let c = &self.piece_counts;
        let phase: u32 = c[1] as u32 + c[2] as u32 + c[3] as u32 + c[4] as u32 + c[7] as u32 + c[8] as u32 + c[9] as u32
            + c[10] as u32;
        if phase > 12 {
            Phase::Opening
        } else {
            Phase::Endgame
        }
    }

    /// The pawns of `side` on the file with index `f`.
    pub open spec fn pawns_on_file(self, side: Color, f: int) -> Bitboard {
        Bitboard(self.piece_bb[Piece::spec_new(side, PieceType::Pawn).idx()].0 & Bitboard::spec_file_mask(f).0)
    }

    /// How many of the first `n` files hold more than one pawn of `side`.
    pub open spec fn doubled_files(self, side: Color, n: int) -> int
        decreases n,
    {
        if n <= 0 {
            0
        } else {
            self.doubled_files(side, n - 1) + (if self.pawns_on_file(side, n - 1).count() > 1 { 1int } else { 0 })
        }
    }

    fn file_pawns(&self, side: Color, file: File) -> (r: Bitboard)
        ensures
            r == self.pawns_on_file(side, file.idx()),
    {
        self.get_piece_bb(Piece::new(side, PieceType::Pawn)).get_occ_file(file)
    }

    /// Number of files that hold more than one pawn of `side`.
    pub fn count_double_pawns(&self, side: Color) -> (r: i32)
        ensures
            r == self.doubled_files(side, 8),
            0 <= r <= 8,
    {
        let mut n: i32 = 0;
        let mut f: usize = 0;
        while f < 8
            invariant
                f <= 8,
                n == self.doubled_files(side, f as int),
                0 <= n <= f,
            decreases 8 - f,
        {
            if self.file_pawns(side, File::from_index(f)).count_squares() > 1 {
                n = n + 1;
            }
            f = f + 1;
        }
        n
    }

    /// Whether file `f` holds pawns of `side` while the files next to it hold none.
    pub open spec fn file_isolated(self, side: Color, f: int) -> bool {
        &&& self.pawns_on_file(side, f).0 != 0
        &&& f > 0 ==> self.pawns_on_file(side, f - 1).0 == 0
        &&& f < 7 ==> self.pawns_on_file(side, f + 1).0 == 0
    }

    /// How many of the first `n` files are isolated for `side`.
    pub open spec fn isolated_files(self, side: Color, n: int) -> int
        decreases n,
    {
        if n <= 0 {
            0
        } else {
            self.isolated_files(side, n - 1) + (if self.file_isolated(side, n - 1) { 1int } else { 0 })
        }
    }

    /// Whether square `s` holds a pawn of `side` that has no enemy pawn on its file.
    pub open spec fn pawn_open(self, side: Color, s: int) -> bool {
        &&& self.board@[s] == Some(Piece::spec_new(side, PieceType::Pawn))
        &&& self.pawns_on_file(side.spec_opposite(), s % 8).0 == 0
    }

    /// How many of the first `n` squares hold an open pawn of `side`.
    pub open spec fn open_pawns(self, side: Color, n: int) -> int
        decreases n,
    {
        if n <= 0 {
            0
        } else {
            self.open_pawns(side, n - 1) + (if self.pawn_open(side, n - 1) { 1int } else { 0 })
        }
    }

    /// The pawn structure score of `side`: penalties for doubled and isolated pawns, a
    /// bonus for pawns on files free of enemy pawns.
    pub open spec fn spec_pawn_structure_score(self, side: Color) -> int {
        OPEN_PAWN_BONUS * self.open_pawns(side, 64) - DOUBLED_PAWN_PENALTY * self.doubled_files(side, 8)
            - ISOLATED_PAWN_PENALTY * self.isolated_files(side, 8)
    }

    /// The pawn structure score of `side`.
    pub fn get_pawn_structure_score(&self, side: Color) -> (r: i32)
        ensures
            r == self.spec_pawn_structure_score(side),
            -160 <= r <= 1280,
    {
        let doubled = self.count_double_pawns(side);
        let mut isolated: i32 = 0;
        let mut f: usize = 0;
        while f < 8
            invariant
                f <= 8,
                isolated == self.isolated_files(side, f as int),
                0 <= isolated <= f,
            decreases 8 - f,
        {
            let here = !self.file_pawns(side, File::from_index(f)).is_empty();
            let left = f > 0 && !self.file_pawns(side, File::from_index(f - 1)).is_empty();
            let right = f < 7 && !self.file_pawns(side, File::from_index(f + 1)).is_empty();
            if here && !left && !right {
                isolated = isolated + 1;
            }
            f = f + 1;
        }
        let pawn = Piece::new(side, PieceType::Pawn);
        let mut open: i32 = 0;
        let mut s: usize = 0;
        while s < 64
            invariant
                s <= 64,
                pawn == Piece::spec_new(side, PieceType::Pawn),
                open == self.open_pawns(side, s as int),
                0 <= open <= s,
            decreases 64 - s,
        {
            if self.board[s] == Some(pawn) {
                if self.file_pawns(side.opposite(), File::from_index(s % 8)).is_empty() {
                    open = open + 1;
                }
            }
            s = s + 1;
        }
        OPEN_PAWN_BONUS * open - DOUBLED_PAWN_PENALTY * doubled - ISOLATED_PAWN_PENALTY * isolated
    }

    /// What the piece on square `s` adds to the mobility of `side`: for a knight,
    /// bishop, rook or queen of that side, the number of squares it attacks that hold no
    /// enemy piece.
    pub open spec fn mobility_at(self, side: Color, s: int) -> int {
        match self.board@[s] {
            Some(p) => if p.spec_color() == side && p.spec_type() != PieceType::Pawn && p.spec_type() != PieceType::King {
                self.attack_set_at(s).difference(self.position_bb[side.spec_opposite().idx()]@).len() as int
            } else {
                0
            },
            None => 0,
        }
    }

    /// The mobility of `side` summed over the first `n` squares.
    pub open spec fn mobility_sum(self, side: Color, n: int) -> int
        decreases n,
    {
        if n <= 0 {
            0
        } else {
            self.mobility_sum(side, n - 1) + self.mobility_at(side, n - 1)
        }
    }

    /// The mobility of `side`.
    pub fn get_mobility(&self, side: Color, pregen_attacks: &PregenAttacks) -> (r: i32)
        requires
            self.wf(),
        ensures
            r == self.mobility_sum(side, 64),
            0 <= r <= 4096,
    {
        let occ = self.get_combined_bb();
        let enemy = self.get_position_bb(side.opposite());
        let mut mobility: i32 = 0;
        let mut i: usize = 0;
        proof {
            reveal(BoardState::bitboards_ok);
        }
        while i < 64
            invariant
                i <= 64,
                occ.0 == self.occupancy(),
                enemy == self.position_bb[side.spec_opposite().idx()],
                crate::zobrist::no_sentinel(self.board@),
                mobility == self.mobility_sum(side, i as int),
                0 <= mobility <= 64 * i,
            decreases 64 - i,
        {
            if let Some(p) = self.board[i] {
                let t = p.get_type();
                if p.get_color() == side && t != PieceType::Pawn && t != PieceType::King {
                    let a = pregen_attacks.get_piece_attacks(t, side, Square::from_index(i), occ);
                    mobility = mobility + a.diff(enemy).count_squares() as i32;
                }
            }
            i = i + 1;
        }
        mobility
    }

    /// Whether square `q` holds a rook or queen of the side opposing `side` that attacks
    /// square `k`.
    pub open spec fn heavy_attacker(self, side: Color, q: int, k: int) -> bool {
        &&& self.board@[q] is Some
        &&& self.board@[q]->Some_0.spec_color() == side.spec_opposite()
        &&& (self.board@[q]->Some_0.spec_type() == PieceType::Rook || self.board@[q]->Some_0.spec_type()
            == PieceType::Queen)
        &&& self.attack_set_at(q).contains(k)
    }

    /// How many of the first `n` squares hold a heavy attacker of square `k`.
    pub open spec fn heavy_attackers(self, side: Color, k: int, n: int) -> int
        decreases n,
    {
        if n <= 0 {
            0
        } else {
            self.heavy_attackers(side, k, n - 1) + (if self.heavy_attacker(side, n - 1, k) { 1int } else { 0 })
        }
    }

    /// How many of the files near a king on file `f` hold a pawn of `side`: the
    /// neighbouring file for a king on the edge, the king's file and both neighbours
    /// otherwise.
    pub open spec fn shield_files(self, side: Color, f: int) -> int {
        if f == 0 {
            if self.pawns_on_file(side, 1).0 != 0 { 1int } else { 0 }
        } else if f == 7 {
            if self.pawns_on_file(side, 6).0 != 0 { 1int } else { 0 }
        } else {
            (if self.pawns_on_file(side, f - 1).0 != 0 { 1int } else { 0 }) + (if self.pawns_on_file(side, f).0 != 0 {
                1int
            } else {
                0
            }) + (if self.pawns_on_file(side, f + 1).0 != 0 { 1int } else { 0 })
        }
    }

    /// The king safety score of `side`: a bonus for pawns near the first king in its
    /// list, a penalty for enemy rooks and queens that attack it. Zero without a king.
    pub open spec fn spec_king_safety_score(self, side: Color) -> int {
        let kings = self.piece_lists[Piece::spec_new(side, PieceType::King).idx()]@;
        if kings.len() == 0 {
            0
        } else {
            PAWN_SHIELD_BONUS * self.shield_files(side, kings[0].idx() % 8) - KING_ATTACKER_PENALTY * self.heavy_attackers(
                side,
                kings[0].idx(),
                64,
            )
        }
    }

    /// The king safety score of `side`.
    pub fn get_king_safety_score(&self, side: Color, pregen_attacks: &PregenAttacks) -> (r: i32)
        requires
            self.wf(),
        ensures
            r == self.spec_king_safety_score(side),
            -640 <= r <= 15,
    {
        let kings = self.get_piece_squares(Piece::new(side, PieceType::King));
        if kings.len() == 0 {
            return 0;
        }
        let king_sq = kings[0];
        let k = king_sq.to_index();
        let occ = self.get_combined_bb();
        let mut attackers: i32 = 0;
        let mut i: usize = 0;
        proof {
            reveal(BoardState::bitboards_ok);
        }
        while i < 64
            invariant
                i <= 64,
                k == king_sq.idx(),
                occ.0 == self.occupancy(),
                crate::zobrist::no_sentinel(self.board@),
                attackers == self.heavy_attackers(side, k as int, i as int),
                0 <= attackers <= i,
            decreases 64 - i,
        {
            if let Some(p) = self.board[i] {
                let t = p.get_type();
                if p.get_color() != side && (t == PieceType::Rook || t == PieceType::Queen) {
                    let a = pregen_attacks.get_piece_attacks(t, p.get_color(), Square::from_index(i), occ);
                    if a.is_occupied(king_sq) {
                        attackers = attackers + 1;
                    }
                }
            }
            i = i + 1;
        }
        let f = k % 8;
        let mut shield: i32 = 0;
        if f == 0 {
            if !self.file_pawns(side, File::FB).is_empty() {
                shield = shield + 1;
            }
        } else if f == 7 {
            if !self.file_pawns(side, File::FG).is_empty() {
                shield = shield + 1;
            }
        } else {
            if !self.file_pawns(side, File::from_index(f - 1)).is_empty() {
                shield = shield + 1;
            }
            if !self.file_pawns(side, File::from_index(f)).is_empty() {
                shield = shield + 1;
            }
            if !self.file_pawns(side, File::from_index(f + 1)).is_empty() {
                shield = shield + 1;
            }
        }
        PAWN_SHIELD_BONUS * shield - KING_ATTACKER_PENALTY * attackers
    }

    /// Whether the piece on square `s` hangs: it belongs to `side`, is no king, is
    /// attacked by the other side and defended by none of its own.
    pub open spec fn hangs(self, side: Color, s: int) -> bool {
        &&& 0 <= s < 64
        &&& self.board@[s] is Some
        &&& self.board@[s]->Some_0.spec_color() == side
        &&& self.board@[s]->Some_0.spec_type() != PieceType::King
        &&& self.is_attacked(s, side.spec_opposite())
        &&& !self.is_attacked(s, side)
    }

    /// The squares of the hanging pieces of `side`.
    pub fn get_hanging_bb(&self, side: Color, pregen_attacks: &PregenAttacks) -> (r: Bitboard)
        requires
            self.wf(),
        ensures
            forall|s: int| r@.contains(s) <==> self.hangs(side, s),
    {
        let enemy_attack_bb = self.attacked_squares(side.opposite(), pregen_attacks);
        let my_defense_bb = self.attacked_squares(side, pregen_attacks);
        let own = self.get_position_bb(side);
        let king = Piece::new(side, PieceType::King);
        let kings = self.get_piece_bb(king);
        let r = enemy_attack_bb.intersect(own).intersect(my_defense_bb.invert()).intersect(kings.invert());
        proof {
            reveal(BoardState::bitboards_ok);
            assert forall|s: int| r@.contains(s) <==> self.hangs(side, s) by {
                if 0 <= s < 64 {
                    assert(own@.contains(s) == bit(self.position_bb[side.idx()].0, s));
                    assert(kings@.contains(s) == bit(self.piece_bb[king.idx()].0, s));
                    if self.board@[s] is Some {
                        let p = self.board@[s]->Some_0;
                        assert(p != Piece::Empty);
                        crate::piece::lemma_piece_new_roundtrip(p);
                    }
                }
            }
        }
        r
    }

    /// The value of the hanging piece on square `s`, if there is one.
    pub open spec fn hanging_at(self, side: Color, s: int) -> int {
        if self.hangs(side, s) {
            self.board@[s]->Some_0.spec_value()
        } else {
            0
        }
    }

    /// The values of the hanging pieces of `side` on the first `n` squares, summed.
    pub open spec fn hanging_sum(self, side: Color, n: int) -> int
        decreases n,
    {
        if n <= 0 {
            0
        } else {
            self.hanging_sum(side, n - 1) + self.hanging_at(side, n - 1)
        }
    }

    fn hanging_value(&self, side: Color, pregen_attacks: &PregenAttacks) -> (r: i32)
        requires
            self.wf(),
        ensures
            r == self.hanging_sum(side, 64),
            0 <= r <= 6_400_000,
    {
        let hanging = self.get_hanging_bb(side, pregen_attacks);
        let mut total: i32 = 0;
        let mut i: usize = 0;
        proof {
            reveal(BoardState::bitboards_ok);
        }
        while i < 64
            invariant
                i <= 64,
                crate::zobrist::no_sentinel(self.board@),
                forall|s: int| hanging@.contains(s) <==> self.hangs(side, s),
                total == self.hanging_sum(side, i as int),
                0 <= total <= 100_000 * i,
            decreases 64 - i,
        {
            let sq = Square::from_index(i);
            if hanging.is_occupied(sq) {
                if let Some(p) = self.board[i] {
                    total = total + p.get_value();
                }
            }
            i = i + 1;
        }
        total
    }

    /// What the piece on square `s` is worth to White in the given phase: its value and
    /// its table entry, counted negative for a black piece.
    pub open spec fn placement_at(self, phase: Phase, s: int) -> int {
        match self.board@[s] {
            Some(p) => p.spec_color().spec_factor() * (p.spec_value() + self.psqt.spec_value(
                phase,
                p,
                Square::spec_from_index(s),
            )),
            None => 0,
        }
    }

    /// The placement worth of the first `n` squares, summed.
    pub open spec fn placement_sum(self, phase: Phase, n: int) -> int
        decreases n,
    {
        if n <= 0 {
            0
        } else {
            self.placement_sum(phase, n - 1) + self.placement_at(phase, n - 1)
        }
    }

    fn placement(&self, phase: Phase) -> (r: i32)
        requires
            self.wf(),
        ensures
            r == self.placement_sum(phase, 64),
            -6_406_400 <= r <= 6_406_400,
    {
        let mut total: i32 = 0;
        let mut i: usize = 0;
        proof {
            reveal(BoardState::bitboards_ok);
        }
        while i < 64
            invariant
                i <= 64,
                crate::zobrist::no_sentinel(self.board@),
                self.psqt.bounded(),
                total == self.placement_sum(phase, i as int),
                -100_100 * i <= total <= 100_100 * i,
            decreases 64 - i,
        {
            if let Some(p) = self.board[i] {
                let sq = Square::from_index(i);
                let worth = p.get_value() + self.get_psq_value(p, sq, phase);
                proof {
                    crate::square::lemma_square_index(sq, sq);
                }
                match p.get_color() {
                    Color::White => {
                        total = total + worth;
                    },
                    Color::Black => {
                        total = total - worth;
                    },
                }
            }
            i = i + 1;
        }
        total
    }

    /// The static evaluation in centipawns, seen from the side to move: material and
    /// placement, then the differences between the two sides in mobility, pawn
    /// structure, king safety, checks and hanging pieces.
    #[verifier::opaque]
    pub open spec fn spec_evaluate(self) -> int {
        let side = self.side;
        let other = side.spec_opposite();
        side.spec_factor() * (self.material[0] - self.material[1] + self.placement_sum(self.spec_phase(), 64)) + (
        self.mobility_sum(side, 64) - self.mobility_sum(other, 64)) + (self.spec_pawn_structure_score(side)
            - self.spec_pawn_structure_score(other)) + (self.spec_king_safety_score(side) - self.spec_king_safety_score(
            other,
        )) - (if self.spec_is_check(side) { CHECK_PENALTY as int } else { 0 }) + (if self.spec_is_check(other) {
            CHECK_PENALTY as int
        } else {
            0
        }) - self.hanging_sum(side, 64) + self.hanging_sum(other, 64)
    }

    /// Evaluates the position for the side to move.
    pub fn evaluate(&self, pregen_attacks: &PregenAttacks) -> (r: i32)
        requires
            self.wf(),
        ensures
            r == self.spec_evaluate(),
            -30_000_000 <= r <= 30_000_000,
    {
        proof {
            reveal(BoardState::spec_evaluate);
        }
        let side = self.side;
        let other = self.get_opposite_side();
        let base = self.get_material_difference() + self.placement(self.get_phase());
        let mut score = match side {
            Color::White => base,
            Color::Black => -base,
        };
        score = score + (self.get_mobility(side, pregen_attacks) - self.get_mobility(other, pregen_attacks));
        score = score + (self.get_pawn_structure_score(side) - self.get_pawn_structure_score(other));
        score = score + (self.get_king_safety_score(side, pregen_attacks) - self.get_king_safety_score(
            other,
            pregen_attacks,
        ));
        if self.is_check(side, pregen_attacks) {
            score = score - CHECK_PENALTY;
        }
        if self.is_check(other, pregen_attacks) {
            score = score + CHECK_PENALTY;
        }
        score = score - self.hanging_value(side, pregen_attacks);
        score = score + self.hanging_value(other, pregen_attacks);
        score
    }
}

impl BoardState {
    /// Whether two states hold the same pieces on the same squares in all their
    /// representations.
    pub open spec fn same_placement(self, other: BoardState) -> bool {
        &&& self.board == other.board
        &&& self.piece_bb == other.piece_bb
        &&& self.position_bb == other.position_bb
        &&& self.piece_lists == other.piece_lists
        &&& self.piece_counts == other.piece_counts
        &&& self.material == other.material
        &&& self.psqt == other.psqt
    }

    /// What is attacked depends on the placement alone.
    pub proof fn lemma_attacks_by_placement(self, other: BoardState, s: int, by: Color)
        requires
            self.same_placement(other),
        ensures
            self.is_attacked(s, by) == other.is_attacked(s, by),
            self.spec_is_check(by) == other.spec_is_check(by),
            forall|side: Color, k: int| self.hangs(side, k) == other.hangs(side, k),
    {
        assert forall|k: int, c: Color| self.is_attacked(k, c) == other.is_attacked(k, c) by {
            if self.is_attacked(k, c) {
                let q = choose|q: int| self.attacks_from(q, k, c);
                assert(other.attacks_from(q, k, c));
            }
            if other.is_attacked(k, c) {
                let q = choose|q: int| other.attacks_from(q, k, c);
                assert(self.attacks_from(q, k, c));
            }
        }
        if self.spec_is_check(by) {
            let k = choose|k: int|
                0 <= k < 64 && self.board@[k] == Some(Piece::spec_new(by, PieceType::King)) && #[trigger] self.is_attacked(
                    k,
                    by.spec_opposite(),
                );
            assert(other.is_attacked(k, by.spec_opposite()));
        }
        if other.spec_is_check(by) {
            let k = choose|k: int|
                0 <= k < 64 && other.board@[k] == Some(Piece::spec_new(by, PieceType::King)) && #[trigger] other.is_attacked(
                    k,
                    by.spec_opposite(),
                );
            assert(self.is_attacked(k, by.spec_opposite()));
        }
    }

    /// The sums that make up the evaluation depend on the placement alone.
    pub proof fn lemma_sums_by_placement(self, other: BoardState, side: Color, phase: Phase, k: int, n: int)
        requires
            self.same_placement(other),
        ensures
            self.doubled_files(side, n) == other.doubled_files(side, n),
            self.isolated_files(side, n) == other.isolated_files(side, n),
            self.open_pawns(side, n) == other.open_pawns(side, n),
            self.mobility_sum(side, n) == other.mobility_sum(side, n),
            self.heavy_attackers(side, k, n) == other.heavy_attackers(side, k, n),
            self.hanging_sum(side, n) == other.hanging_sum(side, n),
            self.placement_sum(phase, n) == other.placement_sum(phase, n),
        decreases n,
    {
        if n > 0 {
            self.lemma_sums_by_placement(other, side, phase, k, n - 1);
            self.lemma_attacks_by_placement(other, n - 1, side);
            assert(self.hangs(side, n - 1) == other.hangs(side, n - 1));
        }
    }

    /// The evaluation is seen from the side to move: the same placement with the other
    /// side to move evaluates to the opposite.
    pub proof fn lemma_evaluate_flips(self, other: BoardState)
        requires
            self.same_placement(other),
            other.side == self.side.spec_opposite(),
        ensures
            other.spec_evaluate() == -self.spec_evaluate(),
    {
        reveal(BoardState::spec_evaluate);
        let a = self.side;
        let b = other.side;
        let phase = self.spec_phase();
        assert(other.spec_phase() == phase);
        let ka = self.piece_lists[Piece::spec_new(a, PieceType::King).idx()]@;
        let kb = self.piece_lists[Piece::spec_new(b, PieceType::King).idx()]@;
        let sa = if ka.len() > 0 { ka[0].idx() } else { 0 };
        let sb = if kb.len() > 0 { kb[0].idx() } else { 0 };
        self.lemma_sums_by_placement(other, a, phase, sa, 64);
        self.lemma_sums_by_placement(other, b, phase, sb, 64);
        self.lemma_sums_by_placement(other, a, phase, sa, 8);
        self.lemma_sums_by_placement(other, b, phase, sb, 8);
        self.lemma_attacks_by_placement(other, 0, a);
        self.lemma_attacks_by_placement(other, 0, b);
        assert(self.spec_king_safety_score(a) == other.spec_king_safety_score(a));
        assert(self.spec_king_safety_score(b) == other.spec_king_safety_score(b));
        assert(self.spec_pawn_structure_score(a) == other.spec_pawn_structure_score(a));
        assert(self.spec_pawn_structure_score(b) == other.spec_pawn_structure_score(b));
        let base = self.material[0] - self.material[1] + self.placement_sum(phase, 64);
        assert(b.spec_factor() * base == -(a.spec_factor() * base)) by (nonlinear_arith)
            requires
                b.spec_factor() == -a.spec_factor(),
        ;
    }
}

} // verus!
