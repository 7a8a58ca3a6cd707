//! Pseudo-legal move generation: every move the pieces of the side to move can make by
//! the rules of movement and capture, whether or not it leaves the mover's king attacked.

use crate::attack_pregen::{pawn_attack_set, PregenAttacks};
use crate::bitboard::{bit, sorted_members, Bitboard};
use crate::board_state::{behind, castle_rook_from, castle_rook_to, BoardState};
use crate::move_encode::{lemma_new_fields, Move};
use crate::piece::{lemma_piece_new_parts, lemma_piece_new_roundtrip, CastlePerms, Color, Piece, PieceType};
use crate::square::{lemma_square_from_index, lemma_square_index, Square};
use vstd::prelude::*;

verus! {

/// Whether the square with index `t` lies on the first or the eighth rank.
pub open spec fn is_last_rank(t: int) -> bool {
    t / 8 == 0 || t / 8 == 7
}

impl BoardState {
    /// Whether every move of a list can be made on this position.
    pub open spec fn all_fit(self, moves: Seq<Move>) -> bool {
        forall|i: int| 0 <= i < moves.len() ==> self.move_fits(#[trigger] moves[i])
    }

    /// Whether a piece of the side to move may land on square `t`: the square is empty or
    /// holds an enemy piece other than the king.
    pub open spec fn may_land(self, t: int) -> bool {
        match self.board@[t] {
            None => true,
            Some(p) => p.spec_color() != self.side && p.spec_type() != PieceType::King,
        }
    }

    /// The squares a piece of kind `ptype` of the side to move can go to from `from`: the
    /// squares it attacks on which it may land.
    pub open spec fn target_set(self, ptype: PieceType, from: int) -> Set<int> {
        Set::new(
            |t: int|
                0 <= t < 64 && PregenAttacks::spec_piece_attacks(ptype, self.side, from, self.occupancy()).contains(t)
                    && self.may_land(t),
        )
    }

    /// The move of `piece` from `from` to `to` without any flag. Its capture field is
    /// what the mailbox holds on `to`.
    pub open spec fn plain_move(self, piece: Piece, from: int, to: int) -> Move {
        Move::spec_new(
            Square::spec_from_index(from),
            Square::spec_from_index(to),
            piece,
            self.board@[to],
            None,
            false,
            false,
            false,
        )
    }

    /// The plain moves of `piece` from `from` to each square of `targets`, in order.
    pub open spec fn moves_to(self, piece: Piece, from: int, targets: Seq<int>) -> Seq<Move> {
        Seq::new(targets.len(), |i: int| self.plain_move(piece, from, targets[i]))
    }

    /// The moves of a piece of kind `ptype` from `from`, by ascending target square.
    pub open spec fn piece_moves_from(self, ptype: PieceType, from: int) -> Seq<Move> {
        self.moves_to(Piece::spec_new(self.side, ptype), from, sorted_members(self.target_set(ptype, from), 64))
    }

    /// The moves of the first `n` pieces of kind `ptype` in that piece's list.
    pub open spec fn piece_moves(self, ptype: PieceType, n: int) -> Seq<Move>
        decreases n,
    {
        if n <= 0 {
            Seq::empty()
        } else {
            self.piece_moves(ptype, n - 1) + self.piece_moves_from(
                ptype,
                self.piece_lists[Piece::spec_new(self.side, ptype).idx()]@[n - 1].idx(),
            )
        }
    }

    /// The moves of all pieces of kind `ptype` of the side to move, castling apart.
    pub open spec fn all_piece_moves(self, ptype: PieceType) -> Seq<Move> {
        self.piece_moves(ptype, self.piece_lists[Piece::spec_new(self.side, ptype).idx()]@.len() as int)
    }

    /// The pawn of the side to move.
    pub open spec fn own_pawn(self) -> Piece {
        Piece::spec_new(self.side, PieceType::Pawn)
    }

    /// The pawn of the other side.
    pub open spec fn enemy_pawn(self) -> Piece {
        Piece::spec_new(self.side.spec_opposite(), PieceType::Pawn)
    }

    /// The index step of one rank forward for the side to move.
    pub open spec fn forward(self) -> int {
        if self.side == Color::White {
            8
        } else {
            -8
        }
    }

    /// The promotion move of a pawn from `from` to `to` that turns it into a `ptype`.
    pub open spec fn promotion_move(self, from: int, to: int, capture: Option<Piece>, ptype: PieceType) -> Move {
        Move::spec_new(
            Square::spec_from_index(from),
            Square::spec_from_index(to),
            self.own_pawn(),
            capture,
            Some(Piece::spec_new(self.side, ptype)),
            false,
            false,
            false,
        )
    }

    /// The moves that bring a pawn from `from` to `to`: on the last rank one promotion
    /// move each for queen, rook, bishop and knight, otherwise one plain move.
    pub open spec fn pawn_arrivals(self, from: int, to: int, capture: Option<Piece>) -> Seq<Move> {
        if is_last_rank(to) {
            seq![
                self.promotion_move(from, to, capture, PieceType::Queen),
                self.promotion_move(from, to, capture, PieceType::Rook),
                self.promotion_move(from, to, capture, PieceType::Bishop),
                self.promotion_move(from, to, capture, PieceType::Knight),
            ]
        } else {
            seq![
                Move::spec_new(
                    Square::spec_from_index(from),
                    Square::spec_from_index(to),
                    self.own_pawn(),
                    capture,
                    None,
                    false,
                    false,
                    false,
                ),
            ]
        }
    }

    /// Whether the pawn on `from` can capture en passant on square `e`: it attacks the
    /// square, the square is empty, and the enemy pawn that passed it stands behind it.
    pub open spec fn can_capture_en_passant(self, from: int, e: int) -> bool {
        &&& pawn_attack_set(self.side, from).contains(e)
        &&& self.board@[e] is None
        &&& 0 <= e - self.forward() < 64
        &&& self.board@[e - self.forward()] == Some(self.enemy_pawn())
    }

    /// The en-passant capture of the pawn on `from`, if it has one.
    pub open spec fn en_passant_moves(self, from: int) -> Seq<Move> {
        if self.en_passant is Some && self.can_capture_en_passant(from, self.en_passant->Some_0.idx()) {
            seq![
                Move::spec_new(
                    Square::spec_from_index(from),
                    self.en_passant->Some_0,
                    self.own_pawn(),
                    Some(self.enemy_pawn()),
                    None,
                    false,
                    true,
                    false,
                ),
            ]
        } else {
            Seq::empty()
        }
    }

    /// The single push of the pawn on `from`, if the square ahead is empty.
    pub open spec fn push_moves(self, from: int) -> Seq<Move> {
        let t = from + self.forward();
        if 0 <= t < 64 && self.board@[t] is None {
            self.pawn_arrivals(from, t, None)
        } else {
            Seq::empty()
        }
    }

    /// Whether the pawn on `from` stands on its starting rank with both squares ahead
    /// empty.
    pub open spec fn can_double_push(self, from: int) -> bool {
        &&& from / 8 == (if self.side == Color::White { 1int } else { 6int })
        &&& self.board@[from + self.forward()] is None
        &&& self.board@[from + 2 * self.forward()] is None
    }

    /// The double push of the pawn on `from`, if it has one.
    pub open spec fn double_push_moves(self, from: int) -> Seq<Move> {
        if self.can_double_push(from) {
            seq![
                Move::spec_new(
                    Square::spec_from_index(from),
                    Square::spec_from_index(from + 2 * self.forward()),
                    self.own_pawn(),
                    None,
                    None,
                    true,
                    false,
                    false,
                ),
            ]
        } else {
            Seq::empty()
        }
    }

    /// The squares the pawn on `from` can capture on: the squares it attacks that hold an
    /// enemy piece other than the king.
    pub open spec fn pawn_capture_set(self, from: int) -> Set<int> {
        Set::new(
            |t: int|
                0 <= t < 64 && pawn_attack_set(self.side, from).contains(t) && self.board@[t] is Some && self.may_land(
                    t,
                ),
        )
    }

    /// The captures of the pawn on `from` on the first `n` squares of `targets`.
    pub open spec fn pawn_captures(self, from: int, targets: Seq<int>, n: int) -> Seq<Move>
        decreases n,
    {
        if n <= 0 {
            Seq::empty()
        } else {
            self.pawn_captures(from, targets, n - 1) + self.pawn_arrivals(
                from,
                targets[n - 1],
                self.board@[targets[n - 1]],
            )
        }
    }

    /// The moves of the pawn on `from`: en-passant capture, push, double push, captures.
    #[verifier::opaque]
    pub open spec fn pawn_moves_from(self, from: int) -> Seq<Move> {
        let targets = sorted_members(self.pawn_capture_set(from), 64);
        self.en_passant_moves(from) + self.push_moves(from) + self.double_push_moves(from) + self.pawn_captures(
            from,
            targets,
            targets.len() as int,
        )
    }

    /// The moves of the first `n` pawns in the pawn list of the side to move.
    pub open spec fn pawn_moves(self, n: int) -> Seq<Move>
        decreases n,
    {
        if n <= 0 {
            Seq::empty()
        } else {
            self.pawn_moves(n - 1) + self.pawn_moves_from(self.piece_lists[self.own_pawn().idx()]@[n - 1].idx())
        }
    }

    /// The square the king of the side to move castles from.
    pub open spec fn king_home(self) -> int {
        if self.side == Color::White {
            4
        } else {
            60
        }
    }

    /// Whether the side to move can castle on the given side: it holds the right, king
    /// and rook stand on their home squares with nothing between them, the king is not
    /// in check, and neither the square it crosses nor the one it lands on is attacked.
    pub open spec fn castle_ok(self, king_side: bool) -> bool {
        let k = self.king_home();
        let enemy = self.side.spec_opposite();
        &&& self.castling_rights & CastlePerms::spec_of(self.side, king_side).spec_mask() != 0
        &&& self.board@[k] == Some(Piece::spec_new(self.side, PieceType::King))
        &&& !self.is_attacked(k, enemy)
        &&& if king_side {
            &&& self.board@[k + 3] == Some(Piece::spec_new(self.side, PieceType::Rook))
            &&& self.board@[k + 1] is None
            &&& self.board@[k + 2] is None
            &&& !self.is_attacked(k + 1, enemy)
            &&& !self.is_attacked(k + 2, enemy)
        } else {
            &&& self.board@[k - 4] == Some(Piece::spec_new(self.side, PieceType::Rook))
            &&& self.board@[k - 1] is None
            &&& self.board@[k - 2] is None
            &&& self.board@[k - 3] is None
            &&& !self.is_attacked(k - 1, enemy)
            &&& !self.is_attacked(k - 2, enemy)
        }
    }

    /// The castling move to the given side: the king goes two files towards the rook.
    pub open spec fn castle_move(self, king_side: bool) -> Move {
        let k = self.king_home();
        Move::spec_new(
            Square::spec_from_index(k),
            Square::spec_from_index(if king_side { k + 2 } else { k - 2 }),
            Piece::spec_new(self.side, PieceType::King),
            None,
            None,
            false,
            false,
            true,
        )
    }

    /// The castling moves of the side to move, king side first.
    pub open spec fn castle_moves(self) -> Seq<Move> {
        (if self.castle_ok(true) { seq![self.castle_move(true)] } else { Seq::empty() }) + (if self.castle_ok(false) {
            seq![self.castle_move(false)]
        } else {
            Seq::empty()
        })
    }

    /// All pseudo-legal moves of the side to move: those of the pawns, knights, bishops,
    /// rooks, queens and kings, then castling.
    #[verifier::opaque]
    pub open spec fn spec_pseudo_moves(self) -> Seq<Move> {
        self.pawn_moves(self.piece_lists[self.own_pawn().idx()]@.len() as int) + self.all_piece_moves(PieceType::Knight)
            + self.all_piece_moves(PieceType::Bishop) + self.all_piece_moves(PieceType::Rook) + self.all_piece_moves(
            PieceType::Queen,
        ) + self.all_piece_moves(PieceType::King) + self.castle_moves()
    }

    /// Every move of a list that fits is in canonical form.
    pub proof fn lemma_all_fit_wf(self, moves: Seq<Move>)
        requires
            self.all_fit(moves),
        ensures
            forall|i: int| 0 <= i < moves.len() ==> (#[trigger] moves[i]).wf(),
    {
        assert forall|i: int| 0 <= i < moves.len() implies (#[trigger] moves[i]).wf() by {
            self.lemma_fits_wf(moves[i]);
        }
    }

    /// What a consistent state tells about the entries of a piece list.
    pub proof fn lemma_listed(self, piece: Piece, i: int)
        requires
            self.wf(),
            piece.is_real(),
            0 <= i < self.piece_lists[piece.idx()]@.len(),
        ensures
            self.board@[self.piece_lists[piece.idx()]@[i].idx()] == Some(piece),
            0 <= self.piece_lists[piece.idx()]@[i].idx() < 64,
    {
        reveal(BoardState::lists_ok);
        lemma_piece_new_roundtrip(piece);
        lemma_square_index(self.piece_lists[piece.idx()]@[i], self.piece_lists[piece.idx()]@[i]);
    }

    /// How the bitboards of a consistent state read the mailbox.
    pub proof fn lemma_bitboards(self, s: int)
        requires
            self.wf(),
            0 <= s < 64,
        ensures
            self.board@[s] != Some(Piece::Empty),
            forall|p: Piece| p.is_real() ==> (#[trigger] bit(self.piece_bb[p.idx()].0, s) <==> self.board@[s] == Some(p)),
            forall|c: Color|
                #[trigger] bit(self.position_bb[c.idx()].0, s) <==> (self.board@[s] is Some
                    && self.board@[s]->Some_0.spec_color() == c),
            bit(self.occupancy(), s) <==> self.board@[s] is Some,
    {
        reveal(BoardState::bitboards_ok);
        assert forall|p: Piece| p.is_real() implies (#[trigger] bit(self.piece_bb[p.idx()].0, s) <==> self.board@[s]
            == Some(p)) by {
            lemma_piece_new_roundtrip(p);
        }
        assert forall|c: Color|
            #[trigger] bit(self.position_bb[c.idx()].0, s) <==> (self.board@[s] is Some
                && self.board@[s]->Some_0.spec_color() == c) by {
            assert(bit(self.position_bb[c.idx()].0, s) <==> (self.board@[s] is Some
                && self.board@[s]->Some_0.spec_color().idx() == c.idx()));
        }
        crate::bitboard::lemma_bit_logic(self.position_bb[0].0, self.position_bb[1].0, s);
        assert(bit(self.position_bb[0].0, s) <==> (self.board@[s] is Some && self.board@[s]->Some_0.spec_color().idx()
            == 0));
        assert(bit(self.position_bb[1].0, s) <==> (self.board@[s] is Some && self.board@[s]->Some_0.spec_color().idx()
            == 1));
    }

    /// A plain move of a piece of the side to move to a square it may land on fits the
    /// position.
    pub proof fn lemma_plain_fits(self, piece: Piece, from: int, to: int)
        requires
            self.wf(),
            piece.is_real(),
            0 <= from < 64,
            0 <= to < 64,
            self.board@[from] == Some(piece),
            piece.spec_color() == self.side,
            self.may_land(to),
        ensures
            self.move_fits(self.plain_move(piece, from, to)),
    {
        reveal(BoardState::move_fits);
        self.lemma_bitboards(to);
        lemma_square_from_index(from);
        lemma_square_from_index(to);
        lemma_new_fields(
            Square::spec_from_index(from),
            Square::spec_from_index(to),
            piece,
            self.board@[to],
            None,
            false,
            false,
            false,
        );
    }

    /// A pawn's arrival on an empty square ahead or on a square it captures on fits the
    /// position.
    pub proof fn lemma_arrivals_fit(self, from: int, to: int)
        requires
            self.wf(),
            0 <= from < 64,
            0 <= to < 64,
            self.board@[from] == Some(self.own_pawn()),
            self.may_land(to),
        ensures
            self.all_fit(self.pawn_arrivals(from, to, self.board@[to])),
            self.pawn_arrivals(from, to, self.board@[to]).len() == (if is_last_rank(to) { 4int } else { 1 }),
    {
        reveal(BoardState::move_fits);
        self.lemma_bitboards(to);
        lemma_square_from_index(from);
        lemma_square_from_index(to);
        lemma_piece_new_parts(self.side, PieceType::Pawn);
        lemma_piece_new_parts(self.side, PieceType::Queen);
        lemma_piece_new_parts(self.side, PieceType::Rook);
        lemma_piece_new_parts(self.side, PieceType::Bishop);
        lemma_piece_new_parts(self.side, PieceType::Knight);
        let f = Square::spec_from_index(from);
        let t = Square::spec_from_index(to);
        let c = self.board@[to];
        lemma_new_fields(f, t, self.own_pawn(), c, None, false, false, false);
        lemma_new_fields(f, t, self.own_pawn(), c, Some(Piece::spec_new(self.side, PieceType::Queen)), false, false, false);
        lemma_new_fields(f, t, self.own_pawn(), c, Some(Piece::spec_new(self.side, PieceType::Rook)), false, false, false);
        lemma_new_fields(f, t, self.own_pawn(), c, Some(Piece::spec_new(self.side, PieceType::Bishop)), false, false, false);
        lemma_new_fields(f, t, self.own_pawn(), c, Some(Piece::spec_new(self.side, PieceType::Knight)), false, false, false);
        let l = self.pawn_arrivals(from, to, c);
        assert forall|i: int| 0 <= i < l.len() implies self.move_fits(#[trigger] l[i]) by {
            if is_last_rank(to) {
                if i == 0 {
                } else if i == 1 {
                } else if i == 2 {
                } else {
                }
            }
        }
    }
}

/// Appends the plain moves of `piece` from `from` to every square of `targets`.
fn push_targets(board_state: &BoardState, from: Square, piece: Piece, targets: Bitboard, moves: &mut Vec<Move>)
    requires
        board_state.wf(),
        piece.is_real(),
        board_state.board@[from.idx()] == Some(piece),
        piece.spec_color() == board_state.side,
        forall|t: int| targets@.contains(t) ==> board_state.may_land(t),
        board_state.all_fit(old(moves)@),
    ensures
        final(moves)@ == old(moves)@ + board_state.moves_to(piece, from.idx(), sorted_members(targets@, 64)),
        board_state.all_fit(final(moves)@),
{
    let ghost base = moves@;
    let ghost sorted = sorted_members(targets@, 64);
    let squares = targets.get_occupied_squares();
    let mut j: usize = 0;
    proof {
        lemma_square_index(from, from);
    }
    while j < squares.len()
        invariant
            j <= squares@.len(),
            board_state.wf(),
            piece.is_real(),
            0 <= from.idx() < 64,
            board_state.board@[from.idx()] == Some(piece),
            piece.spec_color() == board_state.side,
            forall|t: int| targets@.contains(t) ==> board_state.may_land(t),
            squares@.len() == sorted.len(),
            forall|i: int| 0 <= i < squares@.len() ==> (#[trigger] squares@[i]).idx() == sorted[i],
            forall|i: int| 0 <= i < squares@.len() ==> targets.contains(#[trigger] squares@[i]),
            moves@.len() == base.len() + j,
            forall|i: int| 0 <= i < base.len() ==> moves@[i] == base[i],
            forall|i: int| 0 <= i < j ==> moves@[base.len() + i] == board_state.plain_move(piece, from.idx(), sorted[i]),
            board_state.all_fit(moves@),
        decreases squares@.len() - j,
    {
        let to = squares[j];
        let ghost before = moves@;
        proof {
            lemma_square_index(to, to);
            lemma_square_index(from, from);
            assert(targets.contains(squares@[j as int]));
            assert(targets@.contains(to.idx()));
            board_state.lemma_plain_fits(piece, from.idx(), to.idx());
        }
        moves.push(Move::new(from, to, piece, board_state.get_piece_on_square(to), None, false, false, false));
        proof {
            assert forall|i: int| 0 <= i < moves@.len() implies board_state.move_fits(#[trigger] moves@[i]) by {
                if i < before.len() {
                    assert(moves@[i] == before[i]);
                }
            }
        }
        j = j + 1;
    }
    proof {
        assert(moves@ =~= base + board_state.moves_to(piece, from.idx(), sorted));
    }
}

/// Appends the moves of every piece of kind `ptype` of the side to move, castling apart.
fn gen_piece_moves(board_state: &BoardState, pregen_attacks: &PregenAttacks, ptype: PieceType, moves: &mut Vec<Move>)
    requires
        board_state.wf(),
        board_state.all_fit(old(moves)@),
    ensures
        final(moves)@ == old(moves)@ + board_state.all_piece_moves(ptype),
        board_state.all_fit(final(moves)@),
{
    let ghost base = moves@;
    let side = board_state.get_side();
    let piece = Piece::new(side, ptype);
    let own = board_state.get_position_bb(side);
    let enemy_kings = board_state.get_piece_bb(Piece::new(side.opposite(), PieceType::King));
    let occ = board_state.get_combined_bb();
    let n = board_state.get_piece_squares(piece).len();
    let mut i: usize = 0;
    assert(moves@ =~= base + board_state.piece_moves(ptype, 0));
    while i < n
        invariant
            i <= n,
            n == board_state.piece_lists[piece.idx()]@.len(),
            board_state.wf(),
            side == board_state.side,
            piece == Piece::spec_new(side, ptype),
            piece.is_real(),
            piece.spec_color() == side,
            own == board_state.position_bb[side.idx()],
            enemy_kings == board_state.piece_bb[Piece::spec_new(side.spec_opposite(), PieceType::King).idx()],
            occ.0 == board_state.occupancy(),
            moves@ == base + board_state.piece_moves(ptype, i as int),
            board_state.all_fit(moves@),
        decreases n - i,
    {
        let from = board_state.get_piece_squares(piece)[i];
        let attacks = pregen_attacks.get_piece_attacks(ptype, side, from, occ);
        let free = attacks.diff(own);
        let targets = free.diff(enemy_kings);
        let ghost before = moves@;
        proof {
            board_state.lemma_listed(piece, i as int);
            lemma_piece_new_parts(side.spec_opposite(), PieceType::King);
            assert forall|t: int| targets@.contains(t) <==> board_state.target_set(ptype, from.idx()).contains(t) by {
                if 0 <= t < 64 {
                    board_state.lemma_bitboards(t);
                    assert(own@.contains(t) == bit(board_state.position_bb[side.idx()].0, t));
                    let ek = Piece::spec_new(side.spec_opposite(), PieceType::King);
                    assert(enemy_kings@.contains(t) == bit(board_state.piece_bb[ek.idx()].0, t));
                    if board_state.board@[t] is Some {
                        lemma_piece_new_roundtrip(board_state.board@[t]->Some_0);
                    }
                } else {
                    assert(!free@.contains(t));
                }
            }
            assert(targets@ =~= board_state.target_set(ptype, from.idx()));
        }
        push_targets(board_state, from, piece, targets, moves);
        proof {
            assert(moves@ =~= base + board_state.piece_moves(ptype, i + 1));
        }
        i = i + 1;
    }
}

/// Appends the moves that bring the pawn on `from` to `to`.
fn push_pawn_arrivals(board_state: &BoardState, from: Square, to: Square, moves: &mut Vec<Move>)
    requires
        board_state.wf(),
        board_state.board@[from.idx()] == Some(board_state.own_pawn()),
        board_state.may_land(to.idx()),
        board_state.all_fit(old(moves)@),
    ensures
        final(moves)@ == old(moves)@ + board_state.pawn_arrivals(from.idx(), to.idx(), board_state.board@[to.idx()]),
        board_state.all_fit(final(moves)@),
{
    let ghost base = moves@;
    let side = board_state.get_side();
    let piece = Piece::new(side, PieceType::Pawn);
    let capture = board_state.get_piece_on_square(to);
    let rank = to.to_index() / 8;
    proof {
        lemma_square_index(from, to);
        lemma_square_index(to, from);
        board_state.lemma_arrivals_fit(from.idx(), to.idx());
    }
    if rank == 0 || rank == 7 {
        moves.push(Move::new(from, to, piece, capture, Some(Piece::new(side, PieceType::Queen)), false, false, false));
        moves.push(Move::new(from, to, piece, capture, Some(Piece::new(side, PieceType::Rook)), false, false, false));
        moves.push(Move::new(from, to, piece, capture, Some(Piece::new(side, PieceType::Bishop)), false, false, false));
        moves.push(Move::new(from, to, piece, capture, Some(Piece::new(side, PieceType::Knight)), false, false, false));
    } else {
        moves.push(Move::new(from, to, piece, capture, None, false, false, false));
    }
    proof {
        let added = board_state.pawn_arrivals(from.idx(), to.idx(), board_state.board@[to.idx()]);
        assert(moves@ =~= base + added);
        assert forall|i: int| 0 <= i < moves@.len() implies board_state.move_fits(#[trigger] moves@[i]) by {
            if i < base.len() {
                assert(moves@[i] == base[i]);
            } else {
                assert(moves@[i] == added[i - base.len()]);
            }
        }
    }
}

/// Appends the en-passant capture of the pawn on `from`, if it has one.
fn push_en_passant(board_state: &BoardState, pregen_attacks: &PregenAttacks, from: Square, moves: &mut Vec<Move>)
    requires
        board_state.wf(),
        board_state.board@[from.idx()] == Some(board_state.own_pawn()),
        board_state.all_fit(old(moves)@),
    ensures
        final(moves)@ == old(moves)@ + board_state.en_passant_moves(from.idx()),
        board_state.all_fit(final(moves)@),
{
    let ghost base = moves@;
    let side = board_state.get_side();
    let white = side == Color::White;
    let piece = Piece::new(side, PieceType::Pawn);
    let enemy_pawn = Piece::new(side.opposite(), PieceType::Pawn);
    proof {
        lemma_square_index(from, from);
        lemma_square_from_index(from.idx());
        lemma_piece_new_parts(side, PieceType::Pawn);
        lemma_piece_new_parts(side.spec_opposite(), PieceType::Pawn);
    }
    if let Some(enpas) = board_state.get_en_passant() {
        let e = enpas.to_index();
        let attacks = pregen_attacks.get_pawn_attacks(side, from);
        if attacks.is_occupied(enpas) && board_state.get_piece_on_square(enpas).is_none() {
            let in_range = if white { e >= 8 } else { e < 56 };
            if in_range {
                let b = if white { e - 8 } else { e + 8 };
                if board_state.get_piece_on_square(Square::from_index(b)) == Some(enemy_pawn) {
                    proof {
                        reveal(BoardState::move_fits);
                        lemma_square_index(enpas, from);
                        lemma_new_fields(from, enpas, piece, Some(enemy_pawn), None, false, true, false);
                        assert(behind(e as int, side) == b);
                        let m = Move::spec_new(from, enpas, piece, Some(enemy_pawn), None, false, true, false);
                        assert(board_state.move_fits(m));
                    }
                    moves.push(Move::new(from, enpas, piece, Some(enemy_pawn), None, false, true, false));
                }
            }
        }
    }
    proof {
        assert(moves@ =~= base + board_state.en_passant_moves(from.idx()));
        assert forall|i: int| 0 <= i < moves@.len() implies board_state.move_fits(#[trigger] moves@[i]) by {
            if i < base.len() {
                assert(moves@[i] == base[i]);
            }
        }
    }
}

/// Appends the single and the double push of the pawn on `from`, where the squares ahead
/// are empty.
fn push_advances(board_state: &BoardState, from: Square, moves: &mut Vec<Move>)
    requires
        board_state.wf(),
        board_state.board@[from.idx()] == Some(board_state.own_pawn()),
        board_state.all_fit(old(moves)@),
    ensures
        final(moves)@ == old(moves)@ + board_state.push_moves(from.idx()) + board_state.double_push_moves(from.idx()),
        board_state.all_fit(final(moves)@),
{
    let ghost base = moves@;
    let side = board_state.get_side();
    let white = side == Color::White;
    let piece = Piece::new(side, PieceType::Pawn);
    let f = from.to_index();
    proof {
        lemma_square_index(from, from);
        lemma_square_from_index(from.idx());
        lemma_piece_new_parts(side, PieceType::Pawn);
    }
    let ahead_in_range = if white { f < 56 } else { f >= 8 };
    let mut ahead_empty = false;
    if ahead_in_range {
        let t = if white { f + 8 } else { f - 8 };
        let to = Square::from_index(t);
        if board_state.get_piece_on_square(to).is_none() {
            ahead_empty = true;
            push_pawn_arrivals(board_state, from, to, moves);
        }
    }
    let ghost after_push = moves@;
    proof {
        assert(after_push =~= base + board_state.push_moves(from.idx()));
    }
    let start_rank: usize = if white { 1 } else { 6 };
    if ahead_empty && f / 8 == start_rank {
        let t = if white { f + 16 } else { f - 16 };
        let to = Square::from_index(t);
        if board_state.get_piece_on_square(to).is_none() {
            proof {
                reveal(BoardState::move_fits);
                lemma_square_index(to, from);
                lemma_new_fields(from, to, piece, None, None, true, false, false);
                let m = Move::spec_new(from, to, piece, None, None, true, false, false);
                assert(behind(t as int, side) == (if white { f + 8 } else { f - 8 }));
                assert(board_state.move_fits(m));
            }
            moves.push(Move::new(from, to, piece, None, None, true, false, false));
        }
    }
    proof {
        assert(moves@ =~= after_push + board_state.double_push_moves(from.idx()));
        assert forall|i: int| 0 <= i < moves@.len() implies board_state.move_fits(#[trigger] moves@[i]) by {
            if i < after_push.len() {
                assert(moves@[i] == after_push[i]);
            }
        }
    }
}

/// Appends the captures of the pawn on `from`.
fn push_pawn_captures(board_state: &BoardState, pregen_attacks: &PregenAttacks, from: Square, moves: &mut Vec<Move>)
    requires
        board_state.wf(),
        board_state.board@[from.idx()] == Some(board_state.own_pawn()),
        board_state.all_fit(old(moves)@),
    ensures
        ({
            let targets = sorted_members(board_state.pawn_capture_set(from.idx()), 64);
            final(moves)@ == old(moves)@ + board_state.pawn_captures(from.idx(), targets, targets.len() as int)
        }),
        board_state.all_fit(final(moves)@),
{
    let ghost base = moves@;
    let side = board_state.get_side();
    let attacks = pregen_attacks.get_pawn_attacks(side, from);
    let enemy = board_state.get_position_bb(side.opposite());
    let enemy_kings = board_state.get_piece_bb(Piece::new(side.opposite(), PieceType::King));
    let hit = attacks.intersect(enemy);
    let targets = hit.diff(enemy_kings);
    proof {
        lemma_square_index(from, from);
        lemma_piece_new_parts(side.spec_opposite(), PieceType::King);
        assert forall|t: int| targets@.contains(t) <==> board_state.pawn_capture_set(from.idx()).contains(t) by {
            if 0 <= t < 64 {
                board_state.lemma_bitboards(t);
                assert(enemy@.contains(t) == bit(board_state.position_bb[side.spec_opposite().idx()].0, t));
                let ek = Piece::spec_new(side.spec_opposite(), PieceType::King);
                assert(enemy_kings@.contains(t) == bit(board_state.piece_bb[ek.idx()].0, t));
                if board_state.board@[t] is Some {
                    lemma_piece_new_roundtrip(board_state.board@[t]->Some_0);
                }
            } else {
                assert(!enemy@.contains(t));
            }
        }
        assert(targets@ =~= board_state.pawn_capture_set(from.idx()));
    }
    let ghost sorted = sorted_members(targets@, 64);
    let squares = targets.get_occupied_squares();
    let mut j: usize = 0;
    assert(moves@ =~= base + board_state.pawn_captures(from.idx(), sorted, 0));
    while j < squares.len()
        invariant
            j <= squares@.len(),
            board_state.wf(),
            board_state.board@[from.idx()] == Some(board_state.own_pawn()),
            targets@ == board_state.pawn_capture_set(from.idx()),
            squares@.len() == sorted.len(),
            forall|i: int| 0 <= i < squares@.len() ==> (#[trigger] squares@[i]).idx() == sorted[i],
            forall|i: int| 0 <= i < squares@.len() ==> targets.contains(#[trigger] squares@[i]),
            moves@ == base + board_state.pawn_captures(from.idx(), sorted, j as int),
            board_state.all_fit(moves@),
        decreases squares@.len() - j,
    {
        let to = squares[j];
        proof {
            assert(targets.contains(squares@[j as int]));
            assert(targets@.contains(to.idx()));
        }
        push_pawn_arrivals(board_state, from, to, moves);
        proof {
            assert(moves@ =~= base + board_state.pawn_captures(from.idx(), sorted, j + 1));
        }
        j = j + 1;
    }
}

/// Appends the moves of the pawn on `from`.
fn gen_pawn_moves_from(board_state: &BoardState, pregen_attacks: &PregenAttacks, from: Square, moves: &mut Vec<Move>)
    requires
        board_state.wf(),
        board_state.board@[from.idx()] == Some(board_state.own_pawn()),
        board_state.all_fit(old(moves)@),
    ensures
        final(moves)@ == old(moves)@ + board_state.pawn_moves_from(from.idx()),
        board_state.all_fit(final(moves)@),
{
    let ghost base = moves@;
    push_en_passant(board_state, pregen_attacks, from, moves);
    push_advances(board_state, from, moves);
    push_pawn_captures(board_state, pregen_attacks, from, moves);
    proof {
        reveal(BoardState::pawn_moves_from);
        let f = from.idx();
        let targets = sorted_members(board_state.pawn_capture_set(f), 64);
        let a = board_state.en_passant_moves(f);
        let b = board_state.push_moves(f);
        let c = board_state.double_push_moves(f);
        let d = board_state.pawn_captures(f, targets, targets.len() as int);
        assert(moves@ == base + a + b + c + d);
        assert(base + a + b + c + d =~= base + (a + b + c + d));
    }
}

/// Appends all pawn moves of the side to move.
fn gen_pawn_moves(board_state: &BoardState, pregen_attacks: &PregenAttacks, moves: &mut Vec<Move>)
    requires
        board_state.wf(),
        board_state.all_fit(old(moves)@),
    ensures
        final(moves)@ == old(moves)@ + board_state.pawn_moves(
            board_state.piece_lists[board_state.own_pawn().idx()]@.len() as int,
        ),
        board_state.all_fit(final(moves)@),
{
    let ghost base = moves@;
    let piece = Piece::new(board_state.get_side(), PieceType::Pawn);
    let n = board_state.get_piece_squares(piece).len();
    let mut i: usize = 0;
    assert(moves@ =~= base + board_state.pawn_moves(0));
    while i < n
        invariant
            i <= n,
            n == board_state.piece_lists[piece.idx()]@.len(),
            board_state.wf(),
            piece == board_state.own_pawn(),
            piece.is_real(),
            moves@ == base + board_state.pawn_moves(i as int),
            board_state.all_fit(moves@),
        decreases n - i,
    {
        let from = board_state.get_piece_squares(piece)[i];
        proof {
            board_state.lemma_listed(piece, i as int);
        }
        gen_pawn_moves_from(board_state, pregen_attacks, from, moves);
        proof {
            assert(moves@ =~= base + board_state.pawn_moves(i + 1));
        }
        i = i + 1;
    }
}

/// Appends all knight moves of the side to move.
fn gen_knight_moves(board_state: &BoardState, pregen_attacks: &PregenAttacks, moves: &mut Vec<Move>)
    requires
        board_state.wf(),
        board_state.all_fit(old(moves)@),
    ensures
        final(moves)@ == old(moves)@ + board_state.all_piece_moves(PieceType::Knight),
        board_state.all_fit(final(moves)@),
{
    gen_piece_moves(board_state, pregen_attacks, PieceType::Knight, moves);
}

/// Appends all bishop moves of the side to move.
fn gen_bishop_moves(board_state: &BoardState, pregen_attacks: &PregenAttacks, moves: &mut Vec<Move>)
    requires
        board_state.wf(),
        board_state.all_fit(old(moves)@),
    ensures
        final(moves)@ == old(moves)@ + board_state.all_piece_moves(PieceType::Bishop),
        board_state.all_fit(final(moves)@),
{
    gen_piece_moves(board_state, pregen_attacks, PieceType::Bishop, moves);
}

/// Appends all rook moves of the side to move.
fn gen_rook_moves(board_state: &BoardState, pregen_attacks: &PregenAttacks, moves: &mut Vec<Move>)
    requires
        board_state.wf(),
        board_state.all_fit(old(moves)@),
    ensures
        final(moves)@ == old(moves)@ + board_state.all_piece_moves(PieceType::Rook),
        board_state.all_fit(final(moves)@),
{
    gen_piece_moves(board_state, pregen_attacks, PieceType::Rook, moves);
}

/// Appends all queen moves of the side to move.
fn gen_queen_moves(board_state: &BoardState, pregen_attacks: &PregenAttacks, moves: &mut Vec<Move>)
    requires
        board_state.wf(),
        board_state.all_fit(old(moves)@),
    ensures
        final(moves)@ == old(moves)@ + board_state.all_piece_moves(PieceType::Queen),
        board_state.all_fit(final(moves)@),
{
    gen_piece_moves(board_state, pregen_attacks, PieceType::Queen, moves);
}

/// Whether castling to the given side is possible, given the squares the enemy attacks.
fn can_castle(board_state: &BoardState, attacked: Bitboard, king_side: bool) -> (r: bool)
    requires
        board_state.wf(),
        forall|s: int| attacked@.contains(s) <==> board_state.is_attacked(s, board_state.side.spec_opposite()),
    ensures
        r == board_state.castle_ok(king_side),
{
    let side = board_state.get_side();
    let k: usize = if side == Color::White { 4 } else { 60 };
    let king = Piece::new(side, PieceType::King);
    let rook = Piece::new(side, PieceType::Rook);
    let right = CastlePerms::of(side, king_side).mask();
    if board_state.get_castling_rights() & right == 0 {
        return false;
    }
    if board_state.get_piece_on_square(Square::from_index(k)) != Some(king) {
        return false;
    }
    if attacked.is_occupied(Square::from_index(k)) {
        return false;
    }
    if king_side {
        board_state.get_piece_on_square(Square::from_index(k + 3)) == Some(rook) && board_state.get_piece_on_square(
            Square::from_index(k + 1),
        ).is_none() && board_state.get_piece_on_square(Square::from_index(k + 2)).is_none() && !attacked.is_occupied(
            Square::from_index(k + 1),
        ) && !attacked.is_occupied(Square::from_index(k + 2))
    } else {
        board_state.get_piece_on_square(Square::from_index(k - 4)) == Some(rook) && board_state.get_piece_on_square(
            Square::from_index(k - 1),
        ).is_none() && board_state.get_piece_on_square(Square::from_index(k - 2)).is_none()
            && board_state.get_piece_on_square(Square::from_index(k - 3)).is_none() && !attacked.is_occupied(
            Square::from_index(k - 1),
        ) && !attacked.is_occupied(Square::from_index(k - 2))
    }
}

/// Appends the castling move to the given side if it is possible.
fn push_castle(board_state: &BoardState, attacked: Bitboard, king_side: bool, moves: &mut Vec<Move>)
    requires
        board_state.wf(),
        forall|s: int| attacked@.contains(s) <==> board_state.is_attacked(s, board_state.side.spec_opposite()),
        board_state.all_fit(old(moves)@),
    ensures
        final(moves)@ == old(moves)@ + (if board_state.castle_ok(king_side) {
            seq![board_state.castle_move(king_side)]
        } else {
            Seq::<Move>::empty()
        }),
        board_state.all_fit(final(moves)@),
{
    let ghost base = moves@;
    if can_castle(board_state, attacked, king_side) {
        let side = board_state.get_side();
        let k: usize = if side == Color::White { 4 } else { 60 };
        let from = Square::from_index(k);
        let to = Square::from_index(if king_side { k + 2 } else { k - 2 });
        let king = Piece::new(side, PieceType::King);
        proof {
            reveal(BoardState::move_fits);
            lemma_piece_new_parts(side, PieceType::King);
            lemma_piece_new_parts(side, PieceType::Rook);
            lemma_new_fields(from, to, king, None, None, false, false, true);
            let m = board_state.castle_move(king_side);
            assert(castle_rook_from(to.idx()) == (if king_side { k + 3 } else { k - 4 }));
            assert(castle_rook_to(to.idx()) == (if king_side { k + 1 } else { k - 1 }));
            assert(board_state.move_fits(m));
        }
        moves.push(Move::new(from, to, king, None, None, false, false, true));
        proof {
            assert(moves@ =~= base + seq![board_state.castle_move(king_side)]);
            assert forall|i: int| 0 <= i < moves@.len() implies board_state.move_fits(#[trigger] moves@[i]) by {
                if i < base.len() {
                    assert(moves@[i] == base[i]);
                }
            }
        }
    } else {
        assert(moves@ =~= base + Seq::<Move>::empty());
    }
}

/// Appends all king moves of the side to move, castling included.
fn gen_king_moves(board_state: &BoardState, pregen_attacks: &PregenAttacks, moves: &mut Vec<Move>)
    requires
        board_state.wf(),
        board_state.all_fit(old(moves)@),
    ensures
        final(moves)@ == old(moves)@ + board_state.all_piece_moves(PieceType::King) + board_state.castle_moves(),
        board_state.all_fit(final(moves)@),
{
    let ghost base = moves@;
    gen_piece_moves(board_state, pregen_attacks, PieceType::King, moves);
    let ghost plain = moves@;
    let attacked = board_state.attacked_squares(board_state.get_opposite_side(), pregen_attacks);
    push_castle(board_state, attacked, true, moves);
    push_castle(board_state, attacked, false, moves);
    proof {
        assert(moves@ =~= base + board_state.all_piece_moves(PieceType::King) + board_state.castle_moves());
    }
}

/// Generates all pseudo-legal moves of the side to move into `moves`, replacing what it
/// held. A move is generated exactly when it is a pseudo-legal move of the position, no
/// move is generated twice, and every move generated can be made on the position.
pub fn get_pseudo_moves(board_state: &BoardState, pregen_attacks: &PregenAttacks, moves: &mut Vec<Move>)
    requires
        board_state.wf(),
    ensures
        final(moves)@ == board_state.spec_pseudo_moves(),
        forall|m: Move| final(moves)@.contains(m) <==> board_state.is_pseudo_move(m),
        final(moves)@.no_duplicates(),
        board_state.all_fit(final(moves)@),
{
    moves.clear();
    gen_pawn_moves(board_state, pregen_attacks, moves);
    gen_knight_moves(board_state, pregen_attacks, moves);
    gen_bishop_moves(board_state, pregen_attacks, moves);
    gen_rook_moves(board_state, pregen_attacks, moves);
    gen_queen_moves(board_state, pregen_attacks, moves);
    gen_king_moves(board_state, pregen_attacks, moves);
    proof {
        assert(moves@ =~= board_state.spec_pseudo_moves()) by {
            reveal(BoardState::spec_pseudo_moves);
        }
        assert forall|m: Move| moves@.contains(m) <==> board_state.is_pseudo_move(m) by {
            board_state.lemma_pseudo_moves_member(m);
        }
        board_state.lemma_pseudo_moves_distinct();
    }
}

} // verus!
