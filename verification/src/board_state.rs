//! The board: a mailbox, bitboards, piece lists, counts, material and hashes, kept in
//! step by every change.

use crate::bitboard::{bit, Bitboard};
use crate::move_encode::Move;
use crate::piece::{Color, Piece, PieceType};
use crate::piece_square_table::{Phase, PieceSquareTable};
use crate::square::{lemma_square_index, Square};
use crate::zobrist::{
    lemma_hash_en_passant, lemma_hash_rights, lemma_hash_side, lemma_mix_commutes, lemma_xor, no_sentinel, xor_if,
    ZobristHasher,
};
use vstd::prelude::*;

verus! {

/// The position a game starts from.
pub const DEFAULT_FEN: &'static str = "rnbqkbnr/pppppppp/8/8/8/8/PPPPPPPP/RNBQKBNR w KQkq - 0 1";

/// A position with everything derived from it.
pub struct BoardState {
    /// The squares of each piece, by piece index.
    pub piece_bb: [Bitboard; 12],
    /// The squares of each colour's pieces, by colour index.
    pub position_bb: [Bitboard; 2],
    /// What stands on each square.
    pub board: [Option<Piece>; 64],
    /// The squares of each piece once more, as lists in no particular order.
    pub piece_lists: [Vec<Square>; 12],
    /// The side to move.
    pub side: Color,
    /// The square a pawn would land on capturing en passant, if the last move was a
    /// double pawn push.
    pub en_passant: Option<Square>,
    /// The castling rights held, one bit each.
    pub castling_rights: u8,
    /// Plies since the last pawn move or capture.
    pub half_moves: u8,
    /// Number of the current full move.
    pub full_moves: u32,
    /// Summed piece values of each colour.
    pub material: [i32; 2],
    /// Number of pieces of each kind, by piece index.
    pub piece_counts: [u8; 12],
    /// The piece-square tables used in evaluation.
    pub psqt: PieceSquareTable,
    /// Zobrist hash of the position.
    pub zobrist_hash: u64,
    /// Zobrist hash of the pawns alone.
    pub pawn_hash: u64,
}

/// How many of the first `n` squares of a mailbox hold `piece`.
pub open spec fn count_of(board: Seq<Option<Piece>>, piece: Piece, n: int) -> int
    decreases n,
{
    if n <= 0 {
        0
    } else {
        count_of(board, piece, n - 1) + (if board[n - 1] == Some(piece) { 1int } else { 0 })
    }
}

/// The summed piece values of the colour with index `c`, given the count of every piece.
pub open spec fn material_of(counts: Seq<u8>, c: int) -> int {
    counts[6 * c] * 100 + counts[6 * c + 1] * 320 + counts[6 * c + 2] * 330 + counts[6 * c + 3] * 500 + counts[6 * c
        + 4] * 900 + counts[6 * c + 5] * 100000
}

/// The bit of the castling right that a rook on the corner with index `s` stands for;
/// nothing for any other square.
pub open spec fn corner_right(s: int) -> u8 {
    if s == 0 {
        2
    } else if s == 7 {
        1
    } else if s == 56 {
        8
    } else if s == 63 {
        4
    } else {
        0
    }
}

/// Counting `piece` never gives more than the number of squares counted.
pub proof fn lemma_count_bounds(board: Seq<Option<Piece>>, piece: Piece, n: int)
    requires
        0 <= n,
    ensures
        0 <= count_of(board, piece, n) <= n,
    decreases n,
{
    if n > 0 {
        lemma_count_bounds(board, piece, n - 1);
    }
}

/// Those of the first `n` squares of a mailbox that hold `piece`.
pub open spec fn squares_of(board: Seq<Option<Piece>>, piece: Piece, n: int) -> Set<int> {
    Set::new(|s: int| 0 <= s < n && board[s] == Some(piece))
}

/// The count of a piece is the number of squares that hold it.
pub proof fn lemma_count_is_cardinality(board: Seq<Option<Piece>>, piece: Piece, n: int)
    requires
        0 <= n,
    ensures
        squares_of(board, piece, n).finite(),
        squares_of(board, piece, n).len() == count_of(board, piece, n),
    decreases n,
{
    if n == 0 {
        assert(squares_of(board, piece, n) =~= Set::<int>::empty());
    } else {
        lemma_count_is_cardinality(board, piece, n - 1);
        if board[n - 1] == Some(piece) {
            assert(squares_of(board, piece, n) =~= squares_of(board, piece, n - 1).insert(n - 1));
        } else {
            assert(squares_of(board, piece, n) =~= squares_of(board, piece, n - 1));
        }
    }
}

/// Changing one square changes the count of a piece by what left and what came.
pub proof fn lemma_count_update(board: Seq<Option<Piece>>, piece: Piece, s: int, v: Option<Piece>, n: int)
    requires
        0 <= s < board.len(),
        0 <= n <= board.len(),
    ensures
        count_of(board.update(s, v), piece, n) == count_of(board, piece, n) + (if s < n && v == Some(piece) {
            1int
        } else {
            0
        }) - (if s < n && board[s] == Some(piece) { 1int } else { 0 }),
    decreases n,
{
    if n > 0 {
        lemma_count_update(board, piece, s, v, n - 1);
    }
}

/// Changing one square changes the fold of piece keys by the keys of what left and what
/// came.
pub proof fn lemma_fold_update(z: ZobristHasher, board: Seq<Option<Piece>>, s: int, v: Option<Piece>, n: int)
    requires
        0 <= s < board.len(),
        0 <= n <= board.len(),
    ensures
        z.pieces_fold(board.update(s, v), n) == (if s < n {
            (z.pieces_fold(board, n) ^ z.square_key(board, s)) ^ z.square_key(board.update(s, v), s)
        } else {
            z.pieces_fold(board, n)
        }),
        z.pawns_fold(board.update(s, v), n) == (if s < n {
            (z.pawns_fold(board, n) ^ z.square_pawn_key(board, s)) ^ z.square_pawn_key(board.update(s, v), s)
        } else {
            z.pawns_fold(board, n)
        }),
    decreases n,
{
    if n > 0 {
        lemma_fold_update(z, board, s, v, n - 1);
        let b2 = board.update(s, v);
        if s == n - 1 {
            let h = z.pieces_fold(board, n - 1);
            lemma_xor(h, z.square_key(board, s), z.square_key(b2, s));
            let p = z.pawns_fold(board, n - 1);
            lemma_xor(p, z.square_pawn_key(board, s), z.square_pawn_key(b2, s));
        } else if s < n - 1 {
            let h = z.pieces_fold(board, n - 1);
            let k = z.square_key(board, n - 1);
            let a = z.square_key(board, s);
            let b = z.square_key(b2, s);
            lemma_xor(h, a, k);
            lemma_xor(h ^ a, b, k);
            lemma_xor(h ^ k, a, b);
            let p = z.pawns_fold(board, n - 1);
            let pk = z.square_pawn_key(board, n - 1);
            let pa = z.square_pawn_key(board, s);
            let pb = z.square_pawn_key(b2, s);
            lemma_xor(p, pa, pk);
            lemma_xor(p ^ pa, pb, pk);
            lemma_xor(p ^ pk, pa, pb);
        }
    }
}

impl BoardState {
    /// The mailbox agrees with the bitboards: a piece's bitboard holds exactly the
    /// squares the mailbox gives to that piece, a colour's bitboard exactly the squares
    /// it gives to pieces of that colour, and no square holds the sentinel piece.
    #[verifier::opaque]
    pub open spec fn bitboards_ok(self) -> bool {
        &&& no_sentinel(self.board@)
        &&& forall|p: int, s: int|
            0 <= p < 12 && 0 <= s < 64 ==> (#[trigger] bit(self.piece_bb[p].0, s) <==> self.board@[s] == Some(
                Piece::spec_from_index(p),
            ))
        &&& forall|c: int, s: int|
            0 <= c < 2 && 0 <= s < 64 ==> (#[trigger] bit(self.position_bb[c].0, s) <==> (self.board@[s] is Some
                && self.board@[s]->Some_0.spec_color().idx() == c))
    }

    /// The mailbox agrees with the piece lists: a piece's list holds exactly the squares
    /// the mailbox gives to that piece, each once.
    #[verifier::opaque]
    pub open spec fn lists_ok(self) -> bool {
        &&& forall|p: int, i: int|
            0 <= p < 12 && 0 <= i < self.piece_lists[p]@.len() ==> self.board@[(#[trigger] self.piece_lists[p]@[i]).idx()]
                == Some(Piece::spec_from_index(p))
        &&& forall|p: int, i: int, j: int|
            0 <= p < 12 && 0 <= i < j < self.piece_lists[p]@.len() ==> #[trigger] self.piece_lists[p]@[i]
                != #[trigger] self.piece_lists[p]@[j]
        &&& forall|p: int| 0 <= p < 12 ==> (#[trigger] self.piece_lists[p])@.len() == self.piece_counts[p]
    }

    /// The counts and the material agree with the mailbox.
    #[verifier::opaque]
    pub open spec fn counts_ok(self) -> bool {
        &&& forall|p: int|
            0 <= p < 12 ==> #[trigger] self.piece_counts[p] == count_of(self.board@, Piece::spec_from_index(p), 64)
        &&& self.material[0] == material_of(self.piece_counts@, 0)
        &&& self.material[1] == material_of(self.piece_counts@, 1)
    }

    /// All representations of the position agree with each other.
    pub open spec fn wf(self) -> bool {
        &&& self.bitboards_ok()
        &&& self.lists_ok()
        &&& self.counts_ok()
        &&& self.psqt.bounded()
    }

    /// Both hashes are what the hasher computes from scratch for this position.
    pub open spec fn hash_ok(self, zobrist: ZobristHasher) -> bool {
        &&& self.zobrist_hash == zobrist.spec_hash(self.board@, self.side, self.en_passant, self.castling_rights)
        &&& self.pawn_hash == zobrist.spec_pawn_hash(self.board@)
    }

    /// Whether two states agree in every field, the piece lists compared element by
    /// element.
    #[verifier::opaque]
    pub open spec fn same_as(self, other: BoardState) -> bool {
        &&& self.piece_bb == other.piece_bb
        &&& self.position_bb == other.position_bb
        &&& self.board == other.board
        &&& forall|p: int| 0 <= p < 12 ==> (#[trigger] self.piece_lists[p])@ == other.piece_lists[p]@
        &&& self.side == other.side
        &&& self.en_passant == other.en_passant
        &&& self.castling_rights == other.castling_rights
        &&& self.half_moves == other.half_moves
        &&& self.full_moves == other.full_moves
        &&& self.material == other.material
        &&& self.piece_counts == other.piece_counts
        &&& self.psqt == other.psqt
        &&& self.zobrist_hash == other.zobrist_hash
        &&& self.pawn_hash == other.pawn_hash
    }

    /// Assembles a state from its parts, as given.
    pub fn init(
        piece_bb: [Bitboard; 12],
        position_bb: [Bitboard; 2],
        board: [Option<Piece>; 64],
        piece_lists: [Vec<Square>; 12],
        side: Color,
        en_passant: Option<Square>,
        castling_rights: u8,
        half_moves: u8,
        full_moves: u32,
        material: [i32; 2],
        piece_counts: [u8; 12],
        psqt: PieceSquareTable,
        zobrist_hash: u64,
        pawn_hash: u64,
    ) -> (r: BoardState)
        ensures
            r.piece_bb == piece_bb,
            r.position_bb == position_bb,
            r.board == board,
            r.piece_lists == piece_lists,
            r.side == side,
            r.en_passant == en_passant,
            r.castling_rights == castling_rights,
            r.half_moves == half_moves,
            r.full_moves == full_moves,
            r.material == material,
            r.piece_counts == piece_counts,
            r.psqt == psqt,
            r.zobrist_hash == zobrist_hash,
            r.pawn_hash == pawn_hash,
    {
        BoardState {
            piece_bb,
            position_bb,
            board,
            piece_lists,
            side,
            en_passant,
            castling_rights,
            half_moves,
            full_moves,
            material,
            piece_counts,
            psqt,
            zobrist_hash,
            pawn_hash,
        }
    }

    /// A copy that agrees with this state in every field.
    pub fn snapshot(&self) -> (r: BoardState)
        ensures
            r.same_as(*self),
    {
        let mut lists: [Vec<Square>; 12] = [
            Vec::new(),
            Vec::new(),
            Vec::new(),
            Vec::new(),
            Vec::new(),
            Vec::new(),
            Vec::new(),
            Vec::new(),
            Vec::new(),
            Vec::new(),
            Vec::new(),
            Vec::new(),
        ];
        let mut p: usize = 0;
        while p < 12
            invariant
                p <= 12,
                forall|q: int| 0 <= q < p ==> (#[trigger] lists[q])@ == self.piece_lists[q]@,
            decreases 12 - p,
        {
            let copy = self.piece_lists[p].clone();
            assert(copy@ =~= self.piece_lists[p as int]@);
            lists[p] = copy;
            p = p + 1;
        }
        proof {
            reveal(BoardState::same_as);
        }
        BoardState {
            piece_bb: self.piece_bb,
            position_bb: self.position_bb,
            board: self.board,
            piece_lists: lists,
            side: self.side,
            en_passant: self.en_passant,
            castling_rights: self.castling_rights,
            half_moves: self.half_moves,
            full_moves: self.full_moves,
            material: self.material,
            piece_counts: self.piece_counts,
            psqt: self.psqt,
            zobrist_hash: self.zobrist_hash,
            pawn_hash: self.pawn_hash,
        }
    }

    /// The mailbox.
    pub fn get_board(&self) -> (r: &[Option<Piece>; 64])
        ensures
            *r == self.board,
    {
        &self.board
    }

    /// The squares of `piece`.
    pub fn get_piece_bb(&self, piece: Piece) -> (r: Bitboard)
        requires
            piece.is_real(),
        ensures
            r == self.piece_bb[piece.idx()],
    {
        self.piece_bb[piece.to_index()]
    }

    /// The squares of the pieces of `color`.
    pub fn get_position_bb(&self, color: Color) -> (r: Bitboard)
        ensures
            r == self.position_bb[color.idx()],
    {
        self.position_bb[color.to_index()]
    }

    /// All occupied squares.
    pub fn get_combined_bb(&self) -> (r: Bitboard)
        ensures
            r.0 == self.position_bb[0].0 | self.position_bb[1].0,
            r@ == self.position_bb[0]@.union(self.position_bb[1]@),
    {
        self.position_bb[0].combine(self.position_bb[1])
    }

    /// The piece lists, by piece index.
    pub fn get_piece_lists(&self) -> (r: &[Vec<Square>; 12])
        ensures
            *r == self.piece_lists,
    {
        &self.piece_lists
    }

    /// The squares of `piece` as a list.
    pub fn get_piece_squares(&self, piece: Piece) -> (r: &[Square])
        requires
            piece.is_real(),
        ensures
            r@ == self.piece_lists[piece.idx()]@,
    {
        self.piece_lists[piece.to_index()].as_slice()
    }

    /// The side to move.
    pub fn get_side(&self) -> (r: Color)
        ensures
            r == self.side,
    {
        self.side
    }

    /// The side that is not to move.
    pub fn get_opposite_side(&self) -> (r: Color)
        ensures
            r == self.side.spec_opposite(),
    {
        self.side.opposite()
    }

    /// The en-passant square, if there is one.
    pub fn get_en_passant(&self) -> (r: Option<Square>)
        ensures
            r == self.en_passant,
    {
        self.en_passant
    }

    /// The castling rights held, one bit each.
    pub fn get_castling_rights(&self) -> (r: u8)
        ensures
            r == self.castling_rights,
    {
        self.castling_rights
    }

    /// Whether every right in `castling` is held.
    pub fn check_castle(&self, castling: u8) -> (r: bool)
        ensures
            r == (self.castling_rights & castling == castling),
    {
        self.castling_rights & castling == castling
    }

    /// Plies since the last pawn move or capture.
    pub fn get_half_moves(&self) -> (r: u8)
        ensures
            r == self.half_moves,
    {
        self.half_moves
    }

    /// Number of the current full move.
    pub fn get_full_moves(&self) -> (r: u32)
        ensures
            r == self.full_moves,
    {
        self.full_moves
    }

    /// The material of both sides, White's first.
    pub fn get_material(&self) -> (r: &[i32; 2])
        ensures
            *r == self.material,
    {
        &self.material
    }

    /// White's material less Black's.
    pub fn get_material_difference(&self) -> (r: i32)
        requires
            self.wf(),
        ensures
            r == self.material[0] - self.material[1],
            r == material_of(self.piece_counts@, 0) - material_of(self.piece_counts@, 1),
            -7_000_000 <= r <= 7_000_000,
    {
        proof {
            reveal(BoardState::counts_ok);
            self.lemma_count_bound();
        }
        self.material[0] - self.material[1]
    }

    /// White's material.
    pub fn get_white_material(&self) -> (r: i32)
        ensures
            r == self.material[0],
    {
        self.material[0]
    }

    /// Black's material.
    pub fn get_black_material(&self) -> (r: i32)
        ensures
            r == self.material[1],
    {
        self.material[1]
    }

    /// The count of every piece, by piece index.
    pub fn get_piece_counts(&self) -> (r: &[u8; 12])
        ensures
            *r == self.piece_counts,
    {
        &self.piece_counts
    }

    /// The number of pieces like `piece` on the board.
    pub fn get_piece_count(&self, piece: Piece) -> (r: u8)
        requires
            piece.is_real(),
        ensures
            r == self.piece_counts[piece.idx()],
    {
        self.piece_counts[piece.to_index()]
    }

    /// The Zobrist hash of the position.
    pub fn get_zobrist_hash(&self) -> (r: u64)
        ensures
            r == self.zobrist_hash,
    {
        self.zobrist_hash
    }

    /// The Zobrist hash of the pawns.
    pub fn get_pawn_hash(&self) -> (r: u64)
        ensures
            r == self.pawn_hash,
    {
        self.pawn_hash
    }

    /// What stands on `sq`.
    pub fn get_piece_on_square(&self, sq: Square) -> (r: Option<Piece>)
        ensures
            r == self.board@[sq.idx()],
    {
        self.board[sq.to_index()]
    }

    /// The piece-square table entry for `piece` on `sq` in the given phase.
    pub fn get_psq_value(&self, piece: Piece, sq: Square, phase: Phase) -> (r: i32)
        requires
            piece.is_real(),
        ensures
            r == self.psqt.spec_value(phase, piece, sq),
            self.psqt.bounded() ==> -100 <= r <= 100,
    {
        self.psqt.get_value(phase, piece, sq)
    }

    /// In a consistent state the count of every piece is the number of squares in its
    /// bitboard, and the material of either side is the sum of its pieces' values.
    pub proof fn lemma_counts_match_bitboards(self, piece: Piece)
        requires
            self.wf(),
            piece.is_real(),
        ensures
            self.piece_bb[piece.idx()].count() == self.piece_counts[piece.idx()],
            self.piece_lists[piece.idx()]@.len() == self.piece_counts[piece.idx()],
            self.material[0] == material_of(self.piece_counts@, 0),
            self.material[1] == material_of(self.piece_counts@, 1),
    {
        reveal(BoardState::bitboards_ok);
        reveal(BoardState::lists_ok);
        reveal(BoardState::counts_ok);
        crate::piece::lemma_piece_new_roundtrip(piece);
        let p = piece.idx();
        lemma_count_is_cardinality(self.board@, piece, 64);
        assert(self.piece_counts[p] == count_of(self.board@, Piece::spec_from_index(p), 64));
        assert forall|s: int| self.piece_bb[p]@.contains(s) == squares_of(self.board@, piece, 64).contains(s) by {
            if 0 <= s < 64 {
                assert(bit(self.piece_bb[p].0, s) <==> self.board@[s] == Some(Piece::spec_from_index(p)));
            }
        }
        assert(self.piece_bb[p]@ =~= squares_of(self.board@, piece, 64));
    }

    /// In a consistent state no count exceeds 64 and the material of either side stays
    /// far inside the range of its type.
    pub proof fn lemma_count_bound(self)
        requires
            self.counts_ok(),
        ensures
            forall|p: int| 0 <= p < 12 ==> 0 <= #[trigger] self.piece_counts[p] <= 64,
            0 <= self.material[0] <= 6_537_600,
            0 <= self.material[1] <= 6_537_600,
    {
        reveal(BoardState::counts_ok);
        assert forall|p: int| 0 <= p < 12 implies 0 <= #[trigger] self.piece_counts[p] <= 64 by {
            lemma_count_bounds(self.board@, Piece::spec_from_index(p), 64);
        }
        assert(self.piece_counts[0] <= 64);
        assert(self.piece_counts[1] <= 64);
        assert(self.piece_counts[2] <= 64);
        assert(self.piece_counts[3] <= 64);
        assert(self.piece_counts[4] <= 64);
        assert(self.piece_counts[5] <= 64);
        assert(self.piece_counts[6] <= 64);
        assert(self.piece_counts[7] <= 64);
        assert(self.piece_counts[8] <= 64);
        assert(self.piece_counts[9] <= 64);
        assert(self.piece_counts[10] <= 64);
        assert(self.piece_counts[11] <= 64);
    }

    /// What a consistent state tells about a piece that stands on a square.
    pub proof fn lemma_occupant(self, piece: Piece, sq: Square)
        requires
            self.wf(),
            self.board@[sq.idx()] == Some(piece),
        ensures
            piece.is_real(),
            1 <= self.piece_counts[piece.idx()] <= 64,
            self.piece_lists[piece.idx()]@.len() == self.piece_counts[piece.idx()],
            piece.spec_value() <= self.material[piece.spec_color().idx()] <= 6_537_600,
            bit(self.piece_bb[piece.idx()].0, sq.idx()),
            bit(self.position_bb[piece.spec_color().idx()].0, sq.idx()),
    {
        reveal(BoardState::bitboards_ok);
        reveal(BoardState::lists_ok);
        reveal(BoardState::counts_ok);
        lemma_square_index(sq, sq);
        assert(self.board@[sq.idx()] != Some(Piece::Empty));
        crate::piece::lemma_piece_new_roundtrip(piece);
        self.lemma_count_bound();
        let p = piece.idx();
        assert(self.piece_counts[p] == count_of(self.board@, Piece::spec_from_index(p), 64));
        lemma_count_update(self.board@, piece, sq.idx(), None, 64);
        lemma_count_bounds(self.board@.update(sq.idx(), None), piece, 64);
        assert(bit(self.piece_bb[p].0, sq.idx()) <==> self.board@[sq.idx()] == Some(Piece::spec_from_index(p)));
        let c = piece.spec_color().idx();
        assert(bit(self.position_bb[c].0, sq.idx()) <==> (self.board@[sq.idx()] is Some
            && self.board@[sq.idx()]->Some_0.spec_color().idx() == c));
        assert(self.piece_counts[0] >= 0 && self.piece_counts[1] >= 0 && self.piece_counts[2] >= 0
            && self.piece_counts[3] >= 0 && self.piece_counts[4] >= 0 && self.piece_counts[5] >= 0
            && self.piece_counts[6] >= 0 && self.piece_counts[7] >= 0 && self.piece_counts[8] >= 0
            && self.piece_counts[9] >= 0 && self.piece_counts[10] >= 0 && self.piece_counts[11] >= 0);
    }

    /// What a consistent state tells about an empty square and a piece that may come to it.
    pub proof fn lemma_vacant(self, piece: Piece, sq: Square)
        requires
            self.wf(),
            piece.is_real(),
            self.board@[sq.idx()] is None,
        ensures
            0 <= self.piece_counts[piece.idx()] < 64,
            self.piece_lists[piece.idx()]@.len() == self.piece_counts[piece.idx()],
            0 <= self.material[piece.spec_color().idx()] <= 6_537_600,
            !bit(self.piece_bb[piece.idx()].0, sq.idx()),
            !bit(self.position_bb[piece.spec_color().idx()].0, sq.idx()),
    {
        reveal(BoardState::bitboards_ok);
        reveal(BoardState::lists_ok);
        reveal(BoardState::counts_ok);
        lemma_square_index(sq, sq);
        crate::piece::lemma_piece_new_roundtrip(piece);
        self.lemma_count_bound();
        let p = piece.idx();
        assert(self.piece_counts[p] == count_of(self.board@, Piece::spec_from_index(p), 64));
        lemma_count_update(self.board@, piece, sq.idx(), Some(piece), 64);
        lemma_count_bounds(self.board@.update(sq.idx(), Some(piece)), piece, 64);
        assert(bit(self.piece_bb[p].0, sq.idx()) <==> self.board@[sq.idx()] == Some(Piece::spec_from_index(p)));
        let c = piece.spec_color().idx();
        assert(bit(self.position_bb[c].0, sq.idx()) <==> (self.board@[sq.idx()] is Some
            && self.board@[sq.idx()]->Some_0.spec_color().idx() == c));
    }

    /// Takes `piece` off `sq`, where it stands, in every representation and in both
    /// hashes.
    pub fn remove_piece(&mut self, piece: Piece, sq: Square, zobrist: &ZobristHasher)
        requires
            old(self).wf(),
            old(self).board@[sq.idx()] == Some(piece),
        ensures
            final(self).wf(),
            final(self).board@ == old(self).board@.update(sq.idx(), None),
            final(self).side == old(self).side,
            final(self).en_passant == old(self).en_passant,
            final(self).castling_rights == old(self).castling_rights,
            final(self).half_moves == old(self).half_moves,
            final(self).full_moves == old(self).full_moves,
            final(self).psqt == old(self).psqt,
            old(self).hash_ok(*zobrist) ==> final(self).hash_ok(*zobrist),
    {
        let ghost before = *self;
        proof {
            self.lemma_occupant(piece, sq);
            lemma_square_index(sq, sq);
        }
        let p = piece.to_index();
        let c = piece.get_color().to_index();
        let s = sq.to_index();
        let found = find_square(&self.piece_lists[p], sq);
        self.bitboards_clear(p, c, sq);
        self.board[s] = None;
        self.piece_counts[p] = self.piece_counts[p] - 1;
        self.material[c] = self.material[c] - piece.get_value();
        let mut h = self.zobrist_hash;
        let mut ph = self.pawn_hash;
        zobrist.update_zobrist_hash_capture(&mut h, &mut ph, piece, sq);
        self.zobrist_hash = h;
        self.pawn_hash = ph;
        if found < self.piece_lists[p].len() {
            self.piece_lists[p].remove(found);
        }
        proof {
            let after = *self;
            assert(after.board@ =~= before.board@.update(s as int, None));
            assert(after.piece_counts@ =~= before.piece_counts@.update(p as int, (before.piece_counts[p as int] - 1) as u8));
            assert(after.material@ =~= before.material@.update(c as int, (before.material[c as int] - piece.spec_value()) as i32));
            before.lemma_removed(after, piece, sq, found as int);
            if before.hash_ok(*zobrist) {
                before.lemma_toggle_hash(after, *zobrist, s as int, None);
            }
        }
    }

    /// Puts `piece` on the empty square `sq` in every representation and in both hashes.
    pub fn put_piece(&mut self, piece: Piece, sq: Square, zobrist: &ZobristHasher)
        requires
            old(self).wf(),
            piece.is_real(),
            old(self).board@[sq.idx()] is None,
        ensures
            final(self).wf(),
            final(self).board@ == old(self).board@.update(sq.idx(), Some(piece)),
            final(self).side == old(self).side,
            final(self).en_passant == old(self).en_passant,
            final(self).castling_rights == old(self).castling_rights,
            final(self).half_moves == old(self).half_moves,
            final(self).full_moves == old(self).full_moves,
            final(self).psqt == old(self).psqt,
            old(self).hash_ok(*zobrist) ==> final(self).hash_ok(*zobrist),
    {
        let ghost before = *self;
        proof {
            self.lemma_vacant(piece, sq);
            lemma_square_index(sq, sq);
        }
        let p = piece.to_index();
        let c = piece.get_color().to_index();
        let s = sq.to_index();
        self.bitboards_set(p, c, sq);
        self.board[s] = Some(piece);
        self.piece_counts[p] = self.piece_counts[p] + 1;
        self.material[c] = self.material[c] + piece.get_value();
        let mut h = self.zobrist_hash;
        let mut ph = self.pawn_hash;
        zobrist.update_zobrist_hash_capture(&mut h, &mut ph, piece, sq);
        self.zobrist_hash = h;
        self.pawn_hash = ph;
        self.piece_lists[p].push(sq);
        proof {
            let after = *self;
            assert(after.board@ =~= before.board@.update(s as int, Some(piece)));
            assert(after.piece_counts@ =~= before.piece_counts@.update(p as int, (before.piece_counts[p as int] + 1) as u8));
            assert(after.material@ =~= before.material@.update(c as int, (before.material[c as int] + piece.spec_value()) as i32));
            before.lemma_added(after, piece, sq);
            if before.hash_ok(*zobrist) {
                before.lemma_toggle_hash(after, *zobrist, s as int, Some(piece));
            }
        }
    }

    fn bitboards_clear(&mut self, p: usize, c: usize, sq: Square)
        requires
            p < 12,
            c < 2,
        ensures
            final(self).piece_bb@ == old(self).piece_bb@.update(
                p as int,
                Bitboard(old(self).piece_bb[p as int].0 & !(1u64 << (sq.idx() as u64))),
            ),
            final(self).position_bb@ == old(self).position_bb@.update(
                c as int,
                Bitboard(old(self).position_bb[c as int].0 & !(1u64 << (sq.idx() as u64))),
            ),
            final(self).piece_bb[p as int]@ == old(self).piece_bb[p as int]@.remove(sq.idx()),
            final(self).position_bb[c as int]@ == old(self).position_bb[c as int]@.remove(sq.idx()),
            final(self).board == old(self).board,
            final(self).piece_lists == old(self).piece_lists,
            final(self).side == old(self).side,
            final(self).en_passant == old(self).en_passant,
            final(self).castling_rights == old(self).castling_rights,
            final(self).half_moves == old(self).half_moves,
            final(self).full_moves == old(self).full_moves,
            final(self).material == old(self).material,
            final(self).piece_counts == old(self).piece_counts,
            final(self).psqt == old(self).psqt,
            final(self).zobrist_hash == old(self).zobrist_hash,
            final(self).pawn_hash == old(self).pawn_hash,
    {
        let mut a = self.piece_bb[p];
        a.clear_square(sq);
        self.piece_bb[p] = a;
        let mut b = self.position_bb[c];
        b.clear_square(sq);
        self.position_bb[c] = b;
        proof {
            assert(self.piece_bb@ =~= old(self).piece_bb@.update(p as int, a));
            assert(self.position_bb@ =~= old(self).position_bb@.update(c as int, b));
        }
    }

    fn bitboards_set(&mut self, p: usize, c: usize, sq: Square)
        requires
            p < 12,
            c < 2,
        ensures
            final(self).piece_bb@ == old(self).piece_bb@.update(
                p as int,
                Bitboard(old(self).piece_bb[p as int].0 | (1u64 << (sq.idx() as u64))),
            ),
            final(self).position_bb@ == old(self).position_bb@.update(
                c as int,
                Bitboard(old(self).position_bb[c as int].0 | (1u64 << (sq.idx() as u64))),
            ),
            final(self).piece_bb[p as int]@ == old(self).piece_bb[p as int]@.insert(sq.idx()),
            final(self).position_bb[c as int]@ == old(self).position_bb[c as int]@.insert(sq.idx()),
            final(self).board == old(self).board,
            final(self).piece_lists == old(self).piece_lists,
            final(self).side == old(self).side,
            final(self).en_passant == old(self).en_passant,
            final(self).castling_rights == old(self).castling_rights,
            final(self).half_moves == old(self).half_moves,
            final(self).full_moves == old(self).full_moves,
            final(self).material == old(self).material,
            final(self).piece_counts == old(self).piece_counts,
            final(self).psqt == old(self).psqt,
            final(self).zobrist_hash == old(self).zobrist_hash,
            final(self).pawn_hash == old(self).pawn_hash,
    {
        let mut a = self.piece_bb[p];
        a.set_square(sq);
        self.piece_bb[p] = a;
        let mut b = self.position_bb[c];
        b.set_square(sq);
        self.position_bb[c] = b;
        proof {
            assert(self.piece_bb@ =~= old(self).piece_bb@.update(p as int, a));
            assert(self.position_bb@ =~= old(self).position_bb@.update(c as int, b));
        }
    }

    /// After `piece` has left `sq` in every representation, the state is consistent again.
    proof fn lemma_removed(self, after: BoardState, piece: Piece, sq: Square, found: int)
        requires
            self.wf(),
            self.board@[sq.idx()] == Some(piece),
            0 <= found < self.piece_lists[piece.idx()]@.len() ==> self.piece_lists[piece.idx()]@[found] == sq,
            found >= self.piece_lists[piece.idx()]@.len() ==> forall|j: int|
                0 <= j < self.piece_lists[piece.idx()]@.len() ==> self.piece_lists[piece.idx()]@[j] != sq,
            found >= 0,
            after.board@ == self.board@.update(sq.idx(), None),
            after.piece_bb@ == self.piece_bb@.update(
                piece.idx(),
                Bitboard(self.piece_bb[piece.idx()].0 & !(1u64 << (sq.idx() as u64))),
            ),
            after.position_bb@ == self.position_bb@.update(
                piece.spec_color().idx(),
                Bitboard(self.position_bb[piece.spec_color().idx()].0 & !(1u64 << (sq.idx() as u64))),
            ),
            after.piece_bb[piece.idx()]@ == self.piece_bb[piece.idx()]@.remove(sq.idx()),
            after.position_bb[piece.spec_color().idx()]@ == self.position_bb[piece.spec_color().idx()]@.remove(
                sq.idx(),
            ),
            after.piece_counts@ == self.piece_counts@.update(piece.idx(), (self.piece_counts[piece.idx()] - 1) as u8),
            self.piece_counts[piece.idx()] >= 1,
            after.material@ == self.material@.update(
                piece.spec_color().idx(),
                (self.material[piece.spec_color().idx()] - piece.spec_value()) as i32,
            ),
            forall|q: int| 0 <= q < 12 && q != piece.idx() ==> after.piece_lists[q] == self.piece_lists[q],
            found < self.piece_lists[piece.idx()]@.len() ==> after.piece_lists[piece.idx()]@
                == self.piece_lists[piece.idx()]@.remove(found),
            found >= self.piece_lists[piece.idx()]@.len() ==> after.piece_lists[piece.idx()]@
                == self.piece_lists[piece.idx()]@,
            after.psqt == self.psqt,
        ensures
            after.wf(),
    {
        reveal(BoardState::bitboards_ok);
        reveal(BoardState::lists_ok);
        reveal(BoardState::counts_ok);
        let held = piece.idx();
        let hue = piece.spec_color().idx();
        let spot = sq.idx();
        lemma_square_index(sq, sq);
        assert(self.board@[sq.idx()] != Some(Piece::Empty));
        crate::piece::lemma_piece_new_roundtrip(piece);
        // The square is in the list, because the list is as long as the count.
        let list = self.piece_lists[held]@;
        if found >= list.len() {
            self.lemma_list_complete(piece, sq);
        }
        assert(after.bitboards_ok()) by {
            assert forall|p: int, s: int| 0 <= p < 12 && 0 <= s < 64 implies (#[trigger] bit(after.piece_bb[p].0, s)
                <==> after.board@[s] == Some(Piece::spec_from_index(p))) by {
                assert(bit(self.piece_bb[p].0, s) <==> self.board@[s] == Some(Piece::spec_from_index(p)));
                if p == held {
                    assert(after.piece_bb[p]@.contains(s) == bit(after.piece_bb[p].0, s));
                    assert(self.piece_bb[p]@.contains(s) == bit(self.piece_bb[p].0, s));
                }
            }
            assert forall|c: int, s: int| 0 <= c < 2 && 0 <= s < 64 implies (#[trigger] bit(after.position_bb[c].0, s)
                <==> (after.board@[s] is Some && after.board@[s]->Some_0.spec_color().idx() == c)) by {
                assert(bit(self.position_bb[c].0, s) <==> (self.board@[s] is Some && self.board@[s]->Some_0.spec_color().idx()
                    == c));
                if c == hue {
                    assert(after.position_bb[c]@.contains(s) == bit(after.position_bb[c].0, s));
                    assert(self.position_bb[c]@.contains(s) == bit(self.position_bb[c].0, s));
                }
            }
        }
        assert(after.counts_ok()) by {
            assert forall|p: int| 0 <= p < 12 implies #[trigger] after.piece_counts[p] == count_of(
                after.board@,
                Piece::spec_from_index(p),
                64,
            ) by {
                lemma_count_update(self.board@, Piece::spec_from_index(p), spot, None, 64);
                assert(self.piece_counts[p] == count_of(self.board@, Piece::spec_from_index(p), 64));
            }
            self.lemma_count_bound();
        }
        assert(after.lists_ok()) by {
            assert forall|p: int, i: int| 0 <= p < 12 && 0 <= i < after.piece_lists[p]@.len() implies after.board@[(
            #[trigger] after.piece_lists[p]@[i]).idx()] == Some(Piece::spec_from_index(p)) by {
                if p == held {
                    let k = if i < found { i } else { i + 1 };
                    assert(after.piece_lists[p]@[i] == list[k]);
                    assert(self.board@[list[k].idx()] == Some(Piece::spec_from_index(p)));
                    if k < found {
                        assert(list[k] != list[found]);
                    } else {
                        assert(list[found] != list[k]);
                    }
                    lemma_square_index(list[k], sq);
                } else {
                    let t = self.piece_lists[p]@[i];
                    assert(self.board@[t.idx()] == Some(Piece::spec_from_index(p)));
                    lemma_square_index(t, sq);
                }
            }
            assert forall|p: int, i: int, j: int| 0 <= p < 12 && 0 <= i < j < after.piece_lists[p]@.len() implies #[trigger] after.piece_lists[p]@[i]
                != #[trigger] after.piece_lists[p]@[j] by {
                if p == held {
                    let ki = if i < found { i } else { i + 1 };
                    let kj = if j < found { j } else { j + 1 };
                    assert(after.piece_lists[p]@[i] == list[ki]);
                    assert(after.piece_lists[p]@[j] == list[kj]);
                    assert(list[ki] != list[kj]);
                } else {
                    assert(self.piece_lists[p]@[i] != self.piece_lists[p]@[j]);
                }
            }
            assert forall|p: int| 0 <= p < 12 implies (#[trigger] after.piece_lists[p])@.len() == after.piece_counts[p] by {
                assert(self.piece_lists[p]@.len() == self.piece_counts[p]);
            }
        }
    }

    /// A square that the mailbox gives to a piece is in that piece's list.
    pub proof fn lemma_list_complete(self, piece: Piece, sq: Square)
        requires
            self.wf(),
            self.board@[sq.idx()] == Some(piece),
        ensures
            exists|i: int| 0 <= i < self.piece_lists[piece.idx()]@.len() && self.piece_lists[piece.idx()]@[i] == sq,
    {
        reveal(BoardState::bitboards_ok);
        reveal(BoardState::lists_ok);
        reveal(BoardState::counts_ok);
        lemma_square_index(sq, sq);
        assert(self.board@[sq.idx()] != Some(Piece::Empty));
        crate::piece::lemma_piece_new_roundtrip(piece);
        let list = self.piece_lists[piece.idx()]@;
        if !(exists|i: int| 0 <= i < list.len() && list[i] == sq) {
            // All entries lie on squares other than `sq` that hold the piece, each once:
            // there are at most `count - 1` such squares.
            let rest = self.board@.update(sq.idx(), None);
            assert forall|i: int| 0 <= i < list.len() implies rest[(#[trigger] list[i]).idx()] == Some(piece)
                && list[i].idx() < 64 by {
                assert(self.board@[self.piece_lists[piece.idx()]@[i].idx()] == Some(Piece::spec_from_index(piece.idx())));
                lemma_square_index(list[i], sq);
            }
            assert forall|i: int, j: int| 0 <= i < j < list.len() implies #[trigger] list[i] != #[trigger] list[j] by {
                assert(self.piece_lists[piece.idx()]@[i] != self.piece_lists[piece.idx()]@[j]);
            }
            lemma_list_fits(rest, piece, list, 64);
            lemma_count_update(self.board@, piece, sq.idx(), None, 64);
            assert(self.piece_counts[piece.idx()] == count_of(self.board@, Piece::spec_from_index(piece.idx()), 64));
            assert(self.piece_lists[piece.idx()]@.len() == self.piece_counts[piece.idx()]);
            assert(false);
        }
    }

    /// After `piece` has come to `sq` in every representation, the state is consistent
    /// again.
    proof fn lemma_added(self, after: BoardState, piece: Piece, sq: Square)
        requires
            self.wf(),
            piece.is_real(),
            self.board@[sq.idx()] is None,
            after.board@ == self.board@.update(sq.idx(), Some(piece)),
            after.piece_bb@ == self.piece_bb@.update(
                piece.idx(),
                Bitboard(self.piece_bb[piece.idx()].0 | (1u64 << (sq.idx() as u64))),
            ),
            after.position_bb@ == self.position_bb@.update(
                piece.spec_color().idx(),
                Bitboard(self.position_bb[piece.spec_color().idx()].0 | (1u64 << (sq.idx() as u64))),
            ),
            after.piece_bb[piece.idx()]@ == self.piece_bb[piece.idx()]@.insert(sq.idx()),
            after.position_bb[piece.spec_color().idx()]@ == self.position_bb[piece.spec_color().idx()]@.insert(
                sq.idx(),
            ),
            after.piece_counts@ == self.piece_counts@.update(piece.idx(), (self.piece_counts[piece.idx()] + 1) as u8),
            after.material@ == self.material@.update(
                piece.spec_color().idx(),
                (self.material[piece.spec_color().idx()] + piece.spec_value()) as i32,
            ),
            forall|q: int| 0 <= q < 12 && q != piece.idx() ==> after.piece_lists[q] == self.piece_lists[q],
            after.piece_lists[piece.idx()]@ == self.piece_lists[piece.idx()]@.push(sq),
            after.psqt == self.psqt,
        ensures
            after.wf(),
    {
        reveal(BoardState::bitboards_ok);
        reveal(BoardState::lists_ok);
        reveal(BoardState::counts_ok);
        let held = piece.idx();
        let hue = piece.spec_color().idx();
        let spot = sq.idx();
        lemma_square_index(sq, sq);
        crate::piece::lemma_piece_new_roundtrip(piece);
        let list = self.piece_lists[held]@;
        lemma_count_update(self.board@, piece, spot, Some(piece), 64);
        lemma_count_bounds(after.board@, piece, 64);
        assert(self.piece_counts[held] == count_of(self.board@, Piece::spec_from_index(held), 64));
        assert(after.bitboards_ok()) by {
            assert forall|p: int, s: int| 0 <= p < 12 && 0 <= s < 64 implies (#[trigger] bit(after.piece_bb[p].0, s)
                <==> after.board@[s] == Some(Piece::spec_from_index(p))) by {
                assert(bit(self.piece_bb[p].0, s) <==> self.board@[s] == Some(Piece::spec_from_index(p)));
                if p == held {
                    assert(after.piece_bb[p]@.contains(s) == bit(after.piece_bb[p].0, s));
                    assert(self.piece_bb[p]@.contains(s) == bit(self.piece_bb[p].0, s));
                }
            }
            assert forall|c: int, s: int| 0 <= c < 2 && 0 <= s < 64 implies (#[trigger] bit(after.position_bb[c].0, s)
                <==> (after.board@[s] is Some && after.board@[s]->Some_0.spec_color().idx() == c)) by {
                assert(bit(self.position_bb[c].0, s) <==> (self.board@[s] is Some && self.board@[s]->Some_0.spec_color().idx()
                    == c));
                if c == hue {
                    assert(after.position_bb[c]@.contains(s) == bit(after.position_bb[c].0, s));
                    assert(self.position_bb[c]@.contains(s) == bit(self.position_bb[c].0, s));
                }
            }
            assert forall|s: int| 0 <= s < after.board@.len() implies #[trigger] after.board@[s] != Some(Piece::Empty) by {
                assert(self.board@[s] != Some(Piece::Empty));
            }
        }
        assert(after.counts_ok()) by {
            assert forall|p: int| 0 <= p < 12 implies #[trigger] after.piece_counts[p] == count_of(
                after.board@,
                Piece::spec_from_index(p),
                64,
            ) by {
                lemma_count_update(self.board@, Piece::spec_from_index(p), spot, Some(piece), 64);
                assert(self.piece_counts[p] == count_of(self.board@, Piece::spec_from_index(p), 64));
            }
            self.lemma_count_bound();
        }
        assert(after.lists_ok()) by {
            assert forall|p: int, i: int| 0 <= p < 12 && 0 <= i < after.piece_lists[p]@.len() implies after.board@[(
            #[trigger] after.piece_lists[p]@[i]).idx()] == Some(Piece::spec_from_index(p)) by {
                if p == held && i == list.len() {
                } else {
                    let t = self.piece_lists[p]@[i];
                    assert(after.piece_lists[p]@[i] == t);
                    assert(self.board@[t.idx()] == Some(Piece::spec_from_index(p)));
                    lemma_square_index(t, sq);
                }
            }
            assert forall|p: int, i: int, j: int| 0 <= p < 12 && 0 <= i < j < after.piece_lists[p]@.len() implies #[trigger] after.piece_lists[p]@[i]
                != #[trigger] after.piece_lists[p]@[j] by {
                if p == held && j == list.len() {
                    let t = self.piece_lists[p]@[i];
                    assert(self.board@[t.idx()] == Some(Piece::spec_from_index(p)));
                } else {
                    assert(self.piece_lists[p]@[i] != self.piece_lists[p]@[j]);
                }
            }
            assert forall|p: int| 0 <= p < 12 implies (#[trigger] after.piece_lists[p])@.len() == after.piece_counts[p] by {
                assert(self.piece_lists[p]@.len() == self.piece_counts[p]);
            }
        }
    }

    /// After the key of what left a square and of what came have been mixed in, the
    /// hashes are again what the hasher computes from scratch.
    proof fn lemma_toggle_hash(self, after: BoardState, z: ZobristHasher, s: int, v: Option<Piece>)
        requires
            0 <= s < 64,
            self.hash_ok(z),
            (self.board@[s] is None && v is Some) || (self.board@[s] is Some && v is None),
            after.board@ == self.board@.update(s, v),
            after.side == self.side,
            after.en_passant == self.en_passant,
            after.castling_rights == self.castling_rights,
            ({
                let piece = if v is Some { v->Some_0 } else { self.board@[s]->Some_0 };
                &&& after.zobrist_hash == self.zobrist_hash ^ z.piece_key(piece, s)
                &&& after.pawn_hash == xor_if(
                    self.pawn_hash,
                    piece.spec_type() == PieceType::Pawn,
                    z.pawn_key(piece.spec_color(), s),
                )
            }),
        ensures
            after.hash_ok(z),
    {
        let piece = if v is Some { v->Some_0 } else { self.board@[s]->Some_0 };
        let k = z.piece_key(piece, s);
        lemma_fold_update(z, self.board@, s, v, 64);
        let f = z.pieces_fold(self.board@, 64);
        let f2 = z.pieces_fold(after.board@, 64);
        lemma_xor(f, k, 0);
        lemma_xor(f, 0, k);
        assert(f2 == f ^ k);
        let x = xor_if(f, self.side == Color::White, z.turn);
        lemma_xor(f, k, z.turn);
        lemma_mix_commutes(z, x, k, self.en_passant, self.castling_rights);
        lemma_mix_commutes(z, z.en_passant_mix(x, self.en_passant), k, self.en_passant, self.castling_rights);
        let g = z.pawns_fold(self.board@, 64);
        let pk = z.square_pawn_key(self.board@, s);
        let pk2 = z.square_pawn_key(after.board@, s);
        lemma_xor(g, pk, pk2);
        lemma_xor(g, pk2, pk);
        lemma_xor(g, 0, 0);
    }
}


/// The square one rank behind `to`, seen from the side that moved there.
pub open spec fn behind(to: int, side: Color) -> int {
    if side == Color::White {
        to - 8
    } else {
        to + 8
    }
}

/// Where the rook stands before a castling move whose king goes to `to`.
pub open spec fn castle_rook_from(to: int) -> int {
    if to == 2 {
        0
    } else if to == 58 {
        56
    } else if to == 6 {
        7
    } else {
        63
    }
}

/// Where the rook stands after a castling move whose king goes to `to`.
pub open spec fn castle_rook_to(to: int) -> int {
    if to == 2 {
        3
    } else if to == 58 {
        59
    } else if to == 6 {
        5
    } else {
        61
    }
}

impl BoardState {
    /// Whether `m` can be made on this position: its fields agree with the mailbox and
    /// with the rules the move's flags stand for.
    #[verifier::opaque]
    pub open spec fn move_fits(self, m: Move) -> bool {
        let from = m.from_idx();
        let to = m.to_idx();
        let piece = m.spec_piece();
        &&& m.wf()
        &&& from != to
        &&& self.board@[from] == Some(piece)
        &&& piece.spec_color() == self.side
        &&& if m.spec_is_en_passant() {
            &&& piece.spec_type() == PieceType::Pawn
            &&& m.spec_capture() == Some(Piece::spec_new(self.side.spec_opposite(), PieceType::Pawn))
            &&& self.board@[to] is None
            &&& 0 <= behind(to, self.side) < 64
            &&& self.board@[behind(to, self.side)] == m.spec_capture()
            &&& !m.spec_is_castling()
            &&& !m.spec_is_double_pawn_push()
        } else {
            self.board@[to] == m.spec_capture()
        }
        &&& m.spec_is_castling() ==> {
            &&& piece.spec_type() == PieceType::King
            &&& m.spec_capture() is None
            &&& m.spec_promotion() is None
            &&& (from == 4 && (to == 6 || to == 2)) || (from == 60 && (to == 62 || to == 58))
            &&& self.board@[castle_rook_from(to)] == Some(Piece::spec_new(self.side, PieceType::Rook))
            &&& self.board@[castle_rook_to(to)] is None
        }
        &&& m.spec_promotion() is Some ==> piece.spec_type() == PieceType::Pawn && m.spec_promotion()->Some_0.spec_color()
            == self.side
        &&& m.spec_is_double_pawn_push() ==> piece.spec_type() == PieceType::Pawn && 0 <= behind(to, self.side) < 64
    }

    /// A move that fits is in canonical form, and it moves a piece of the side to move.
    pub proof fn lemma_fits_wf(self, m: Move)
        requires
            self.move_fits(m),
        ensures
            m.wf(),
            self.board@[m.from_idx()] == Some(m.spec_piece()),
            m.spec_piece().spec_color() == self.side,
    {
        reveal(BoardState::move_fits);
    }

    /// The mailbox after `m`: the captured piece is gone from its square, the mover has
    /// left `from`, it or the piece it is promoted to stands on `to`, and a castling rook
    /// has crossed over the king.
    pub open spec fn made_board(self, m: Move) -> Seq<Option<Piece>> {
        let from = m.from_idx();
        let to = m.to_idx();
        let b1 = if m.spec_capture() is Some {
            self.board@.update(if m.spec_is_en_passant() { behind(to, self.side) } else { to }, None)
        } else {
            self.board@
        };
        let placed = match m.spec_promotion() {
            Some(q) => q,
            None => m.spec_piece(),
        };
        let b2 = b1.update(from, None).update(to, Some(placed));
        if m.spec_is_castling() {
            b2.update(castle_rook_from(to), None).update(
                castle_rook_to(to),
                Some(Piece::spec_new(self.side, PieceType::Rook)),
            )
        } else {
            b2
        }
    }

    /// The rights that `m` takes away: both of the mover's side if the king moves, the
    /// right of a corner a rook leaves, and the right of a corner a rook is captured on.
    pub open spec fn lost_rights(self, m: Move) -> u8 {
        let king_loss: u8 = if m.spec_piece().spec_type() == PieceType::King {
            if self.side == Color::White {
                3
            } else {
                12
            }
        } else {
            0
        };
        let rook_loss: u8 = if m.spec_piece().spec_type() == PieceType::Rook {
            corner_right(m.from_idx())
        } else {
            0
        };
        let capture_loss: u8 = if m.spec_capture() is Some && m.spec_capture()->Some_0.spec_type() == PieceType::Rook
            && !m.spec_is_en_passant() {
            corner_right(m.to_idx())
        } else {
            0
        };
        king_loss | rook_loss | capture_loss
    }

    /// The castling rights after `m`.
    pub open spec fn made_rights(self, m: Move) -> u8 {
        self.castling_rights & !self.lost_rights(m)
    }

    /// The en-passant square after `m`: the square behind a pawn that was pushed two
    /// ranks, none after any other move.
    pub open spec fn made_en_passant(self, m: Move) -> Option<Square> {
        if m.spec_is_double_pawn_push() {
            Some(Square::spec_from_index(behind(m.to_idx(), self.side)))
        } else {
            None
        }
    }

    /// The half-move clock after `m`: zero after a pawn move or a capture, one more
    /// otherwise. The clock stops at the largest value its type holds.
    pub open spec fn made_half_moves(self, m: Move) -> u8 {
        if m.spec_piece().spec_type() == PieceType::Pawn || m.spec_is_capture() {
            0
        } else if self.half_moves < u8::MAX {
            (self.half_moves + 1) as u8
        } else {
            u8::MAX
        }
    }

    /// The full-move number after a move: one more after Black has moved. The number
    /// stops at the largest value its type holds.
    pub open spec fn made_full_moves(self) -> u32 {
        if self.side == Color::Black && self.full_moves < u32::MAX {
            (self.full_moves + 1) as u32
        } else {
            self.full_moves
        }
    }

    /// Whether `after` is the position that results from making `m` on this one.
    #[verifier::opaque]
    pub open spec fn is_made(self, m: Move, after: BoardState) -> bool {
        &&& after.board@ == self.made_board(m)
        &&& after.side == self.side.spec_opposite()
        &&& after.en_passant == self.made_en_passant(m)
        &&& after.castling_rights == self.made_rights(m)
        &&& after.half_moves == self.made_half_moves(m)
        &&& after.full_moves == self.made_full_moves()
        &&& after.psqt == self.psqt
    }

    /// Passes the move to the other side without moving a piece. Nothing else changes,
    /// and the hash follows.
    pub fn make_null_move(&mut self, zobrist: &ZobristHasher)
        ensures
            final(self).side == old(self).side.spec_opposite(),
            final(self).zobrist_hash == old(self).zobrist_hash ^ zobrist.turn,
            final(self).piece_bb == old(self).piece_bb,
            final(self).position_bb == old(self).position_bb,
            final(self).board == old(self).board,
            final(self).piece_lists == old(self).piece_lists,
            final(self).en_passant == old(self).en_passant,
            final(self).castling_rights == old(self).castling_rights,
            final(self).half_moves == old(self).half_moves,
            final(self).full_moves == old(self).full_moves,
            final(self).material == old(self).material,
            final(self).piece_counts == old(self).piece_counts,
            final(self).psqt == old(self).psqt,
            final(self).pawn_hash == old(self).pawn_hash,
            old(self).wf() ==> final(self).wf(),
            old(self).hash_ok(*zobrist) ==> final(self).hash_ok(*zobrist),
    {
        let ghost before = *self;
        self.side = self.side.opposite();
        let mut h = self.zobrist_hash;
        zobrist.update_zobrist_hash_side(&mut h);
        self.zobrist_hash = h;
        proof {
            before.lemma_same_board(*self);
            lemma_hash_side(*zobrist, before.board@, before.side, before.en_passant, before.castling_rights);
        }
    }

    /// Takes a null move back: the move passes to the other side again.
    pub fn unmake_null_move(&mut self, zobrist: &ZobristHasher)
        ensures
            final(self).side == old(self).side.spec_opposite(),
            final(self).zobrist_hash == old(self).zobrist_hash ^ zobrist.turn,
            final(self).piece_bb == old(self).piece_bb,
            final(self).position_bb == old(self).position_bb,
            final(self).board == old(self).board,
            final(self).piece_lists == old(self).piece_lists,
            final(self).en_passant == old(self).en_passant,
            final(self).castling_rights == old(self).castling_rights,
            final(self).half_moves == old(self).half_moves,
            final(self).full_moves == old(self).full_moves,
            final(self).material == old(self).material,
            final(self).piece_counts == old(self).piece_counts,
            final(self).psqt == old(self).psqt,
            final(self).pawn_hash == old(self).pawn_hash,
            old(self).wf() ==> final(self).wf(),
            old(self).hash_ok(*zobrist) ==> final(self).hash_ok(*zobrist),
    {
        self.make_null_move(zobrist);
    }

    /// A state that differs from a consistent one only in the side to move, the
    /// en-passant square, the castling rights, the clocks and the hashes is consistent.
    pub proof fn lemma_same_board(self, after: BoardState)
        requires
            after.piece_bb == self.piece_bb,
            after.position_bb == self.position_bb,
            after.board == self.board,
            after.piece_lists == self.piece_lists,
            after.material == self.material,
            after.piece_counts == self.piece_counts,
            after.psqt == self.psqt,
        ensures
            self.wf() ==> after.wf(),
    {
        reveal(BoardState::bitboards_ok);
        reveal(BoardState::lists_ok);
        reveal(BoardState::counts_ok);
    }

    fn set_castling_rights(&mut self, rights: u8, zobrist: &ZobristHasher)
        ensures
            final(self).castling_rights == rights,
            final(self).board == old(self).board,
            final(self).side == old(self).side,
            final(self).en_passant == old(self).en_passant,
            final(self).half_moves == old(self).half_moves,
            final(self).full_moves == old(self).full_moves,
            final(self).psqt == old(self).psqt,
            old(self).wf() ==> final(self).wf(),
            old(self).hash_ok(*zobrist) ==> final(self).hash_ok(*zobrist),
    {
        let ghost before = *self;
        let mut h = self.zobrist_hash;
        zobrist.update_zobrist_hash_castling(&mut h, self.castling_rights, rights);
        self.zobrist_hash = h;
        self.castling_rights = rights;
        proof {
            before.lemma_same_board(*self);
            lemma_hash_rights(*zobrist, before.board@, before.side, before.en_passant, before.castling_rights, rights);
        }
    }

    fn set_en_passant(&mut self, square: Option<Square>, zobrist: &ZobristHasher)
        ensures
            final(self).en_passant == square,
            final(self).board == old(self).board,
            final(self).side == old(self).side,
            final(self).castling_rights == old(self).castling_rights,
            final(self).half_moves == old(self).half_moves,
            final(self).full_moves == old(self).full_moves,
            final(self).psqt == old(self).psqt,
            old(self).wf() ==> final(self).wf(),
            old(self).hash_ok(*zobrist) ==> final(self).hash_ok(*zobrist),
    {
        let ghost before = *self;
        let mut h = self.zobrist_hash;
        zobrist.update_zobrist_hash_en_passant(&mut h, self.en_passant, square);
        self.zobrist_hash = h;
        self.en_passant = square;
        proof {
            before.lemma_same_board(*self);
            lemma_hash_en_passant(*zobrist, before.board@, before.side, before.en_passant, square, before.castling_rights);
        }
    }

    fn advance_clocks(&mut self, reset: bool)
        ensures
            final(self).half_moves == (if reset {
                0
            } else if old(self).half_moves < u8::MAX {
                (old(self).half_moves + 1) as u8
            } else {
                u8::MAX
            }),
            final(self).full_moves == old(self).made_full_moves(),
            final(self).board == old(self).board,
            final(self).side == old(self).side,
            final(self).en_passant == old(self).en_passant,
            final(self).castling_rights == old(self).castling_rights,
            final(self).psqt == old(self).psqt,
            final(self).zobrist_hash == old(self).zobrist_hash,
            final(self).pawn_hash == old(self).pawn_hash,
            old(self).wf() ==> final(self).wf(),
    {
        let ghost before = *self;
        if reset {
            self.half_moves = 0;
        } else if self.half_moves < u8::MAX {
            self.half_moves = self.half_moves + 1;
        }
        if self.side == Color::Black && self.full_moves < u32::MAX {
            self.full_moves = self.full_moves + 1;
        }
        proof {
            before.lemma_same_board(*self);
        }
    }

    fn corner_right_of(sq: Square) -> (r: u8)
        ensures
            r == corner_right(sq.idx()),
    {
        let s = sq.to_index();
        if s == 0 {
            2
        } else if s == 7 {
            1
        } else if s == 56 {
            8
        } else if s == 63 {
            4
        } else {
            0
        }
    }

    /// Whether `m` can be made on this position.
    pub fn fits(&self, m: Move) -> (r: bool)
        ensures
            r == self.move_fits(m),
    {
        proof {
            reveal(BoardState::move_fits);
        }
        if (m.0 >> 12) & 0xF >= 12 || (m.0 >> 16) & 0xF > 12 || (m.0 >> 20) & 0xF > 12 || m.0 >> 27 != 0 {
            return false;
        }
        let from = m.get_from();
        let to = m.get_to();
        let piece = m.get_piece();
        let capture = m.get_capture();
        let promotion = m.get_promotion();
        let f = from.to_index();
        let t = to.to_index();
        let side = self.side;
        let white = side == Color::White;
        if f == t || self.board[f] != Some(piece) || piece.get_color() != side {
            return false;
        }
        let is_pawn = piece.get_type() == PieceType::Pawn;
        if m.is_en_passant() {
            if !is_pawn || capture != Some(Piece::new(side.opposite(), PieceType::Pawn)) || self.board[t].is_some() {
                return false;
            }
            if (white && t < 8) || (!white && t >= 56) {
                return false;
            }
            let b = if white { t - 8 } else { t + 8 };
            if self.board[b] != capture || m.is_castling() || m.is_double_pawn_push() {
                return false;
            }
        } else if self.board[t] != capture {
            return false;
        }
        if m.is_castling() {
            if piece.get_type() != PieceType::King || capture.is_some() || promotion.is_some() {
                return false;
            }
            if !((f == 4 && (t == 6 || t == 2)) || (f == 60 && (t == 62 || t == 58))) {
                return false;
            }
            let rook_from: usize = if t == 2 { 0 } else if t == 58 { 56 } else if t == 6 { 7 } else { 63 };
            let rook_to: usize = if t == 2 { 3 } else if t == 58 { 59 } else if t == 6 { 5 } else { 61 };
            if self.board[rook_from] != Some(Piece::new(side, PieceType::Rook)) || self.board[rook_to].is_some() {
                return false;
            }
        }
        if let Some(q) = promotion {
            if !is_pawn || q.get_color() != side {
                return false;
            }
        }
        if m.is_double_pawn_push() {
            if !is_pawn || (white && t < 8) || (!white && t >= 56) {
                return false;
            }
        }
        true
    }

    /// Makes `c_move`, which must fit the position. Every representation follows, and so
    /// do both hashes if they were right before.
    pub fn make_move(&mut self, c_move: Move, zobrist: &ZobristHasher)
        requires
            old(self).wf(),
            old(self).move_fits(c_move),
        ensures
            final(self).wf(),
            old(self).is_made(c_move, *final(self)),
            old(self).hash_ok(*zobrist) ==> final(self).hash_ok(*zobrist),
    {
        let ghost before = *self;
        proof {
            reveal(BoardState::move_fits);
            reveal(BoardState::is_made);
        }
        let piece = c_move.get_piece();
        let from = c_move.get_from();
        let to = c_move.get_to();
        let promotion = c_move.get_promotion();
        let capture = c_move.get_capture();
        let is_en_passant = c_move.is_en_passant();
        let is_castle = c_move.is_castling();
        let is_double_push = c_move.is_double_pawn_push();
        let side = self.side;
        proof {
            lemma_square_index(from, to);
            lemma_square_index(to, from);
        }

        if let Some(captured_piece) = capture {
            let sq = if is_en_passant {
                match side {
                    Color::White => to.move_down(1),
                    Color::Black => to.move_up(1),
                }
            } else {
                to
            };
            self.remove_piece(captured_piece, sq, zobrist);
        }
        self.remove_piece(piece, from, zobrist);
        let placed = match promotion {
            Some(q) => q,
            None => piece,
        };
        self.put_piece(placed, to, zobrist);

        if is_castle {
            let rook = Piece::new(side, PieceType::Rook);
            let t = to.to_index();
            let rook_from = Square::from_index(if t == 2 { 0 } else if t == 58 { 56 } else if t == 6 { 7 } else { 63 });
            let rook_to = Square::from_index(if t == 2 { 3 } else if t == 58 { 59 } else if t == 6 { 5 } else { 61 });
            self.remove_piece(rook, rook_from, zobrist);
            self.put_piece(rook, rook_to, zobrist);
        }
        assert(self.board@ =~= before.made_board(c_move));

        let king_loss: u8 = if piece.get_type() == PieceType::King {
            if side == Color::White {
                3
            } else {
                12
            }
        } else {
            0
        };
        let rook_loss: u8 = if piece.get_type() == PieceType::Rook {
            Self::corner_right_of(from)
        } else {
            0
        };
        let capture_loss: u8 = match capture {
            Some(c) => if c.get_type() == PieceType::Rook && !is_en_passant {
                Self::corner_right_of(to)
            } else {
                0
            },
            None => 0,
        };
        let rights = self.castling_rights & !(king_loss | rook_loss | capture_loss);
        self.set_castling_rights(rights, zobrist);

        let en_passant = if is_double_push {
            Some(
                match side {
                    Color::White => to.move_down(1),
                    Color::Black => to.move_up(1),
                },
            )
        } else {
            None
        };
        proof {
            if is_double_push {
                lemma_square_index(en_passant->Some_0, to);
            }
        }
        self.set_en_passant(en_passant, zobrist);

        self.advance_clocks(piece.get_type() == PieceType::Pawn || c_move.is_capture());
        self.make_null_move(zobrist);
    }
}

/// Where `sq` is in `list`: the index of an entry equal to it, or the list's length if
/// there is none.
fn find_square(list: &Vec<Square>, sq: Square) -> (r: usize)
    ensures
        r <= list@.len(),
        r < list@.len() ==> list@[r as int] == sq,
        r == list@.len() ==> forall|j: int| 0 <= j < list@.len() ==> list@[j] != sq,
{
    let s = sq.to_index();
    let n = list.len();
    let mut i: usize = 0;
    while i < n
        invariant
            i <= n,
            n == list@.len(),
            s == sq.idx(),
            forall|j: int| 0 <= j < i ==> list@[j] != sq,
        decreases n - i,
    {
        if list[i].to_index() == s {
            proof {
                lemma_square_index(list@[i as int], sq);
            }
            return i;
        }
        i = i + 1;
    }
    n
}

/// A list of distinct squares that all hold `piece` is no longer than the number of
/// squares that hold it.
pub proof fn lemma_list_fits(board: Seq<Option<Piece>>, piece: Piece, list: Seq<Square>, n: int)
    requires
        0 <= n <= 64,
        board.len() == 64,
        forall|i: int| 0 <= i < list.len() ==> board[(#[trigger] list[i]).idx()] == Some(piece),
        forall|i: int| 0 <= i < list.len() ==> (#[trigger] list[i]).idx() < n,
        forall|i: int, j: int| 0 <= i < j < list.len() ==> #[trigger] list[i] != #[trigger] list[j],
    ensures
        list.len() <= count_of(board, piece, n),
    decreases n,
{
    if n == 0 {
        if list.len() > 0 {
            lemma_square_index(list[0], list[0]);
        }
    } else {
        // Drop the entry on square n - 1, if there is one, and count the rest below.
        if exists|i: int| 0 <= i < list.len() && (#[trigger] list[i]).idx() == n - 1 {
            let i = choose|i: int| 0 <= i < list.len() && (#[trigger] list[i]).idx() == n - 1;
            let rest = list.remove(i);
            assert forall|a: int| 0 <= a < rest.len() implies (#[trigger] rest[a]).idx() < n - 1 && board[rest[a].idx()]
                == Some(piece) by {
                let k = if a < i { a } else { a + 1 };
                assert(rest[a] == list[k]);
                lemma_square_index(list[k], list[i]);
                if k < i {
                    assert(list[k] != list[i]);
                } else {
                    assert(list[i] != list[k]);
                }
            }
            assert forall|a: int, b: int| 0 <= a < b < rest.len() implies #[trigger] rest[a] != #[trigger] rest[b] by {
                let ka = if a < i { a } else { a + 1 };
                let kb = if b < i { b } else { b + 1 };
                assert(rest[a] == list[ka]);
                assert(rest[b] == list[kb]);
                assert(list[ka] != list[kb]);
            }
            lemma_list_fits(board, piece, rest, n - 1);
        } else {
            assert forall|a: int| 0 <= a < list.len() implies (#[trigger] list[a]).idx() < n - 1 by {
                lemma_square_index(list[a], list[a]);
            }
            lemma_list_fits(board, piece, list, n - 1);
        }
    }
}

} // verus!
