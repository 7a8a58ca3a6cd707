//! What the pseudo-legal moves of a position are, said move by move: a move is generated
//! exactly when the rules of movement and capture allow it.

use crate::bitboard::{lemma_sorted_members, sorted_members};
use crate::board_state::BoardState;
use crate::move_encode::{lemma_fields_pack, lemma_new_fields, Move};
use crate::piece::{lemma_piece_new_parts, Piece, PieceType};
use crate::square::{lemma_square_from_index, lemma_square_index, Square};
use vstd::prelude::*;
use vstd::seq_lib::lemma_seq_concat_contains_all_elements;

verus! {

impl BoardState {
    /// Whether `m` is a plain move of a piece of kind `ptype` of the side to move: the
    /// piece stands on the from square, it attacks the to square and may land there, and
    /// the move carries the contents of the to square as its capture and no flag.
    pub open spec fn is_piece_move(self, ptype: PieceType, m: Move) -> bool {
        let piece = Piece::spec_new(self.side, ptype);
        &&& self.board@[m.from_idx()] == Some(piece)
        &&& self.target_set(ptype, m.from_idx()).contains(m.to_idx())
        &&& m == self.plain_move(piece, m.from_idx(), m.to_idx())
    }

    /// Whether `m` is a move of the pawn on `from`: its en-passant capture, its push, its
    /// double push, or a capture on a square it attacks.
    pub open spec fn is_move_of_pawn(self, from: int, m: Move) -> bool {
        ||| self.en_passant_moves(from).contains(m)
        ||| self.push_moves(from).contains(m)
        ||| self.double_push_moves(from).contains(m)
        ||| (self.pawn_capture_set(from).contains(m.to_idx()) && self.pawn_arrivals(
            from,
            m.to_idx(),
            self.board@[m.to_idx()],
        ).contains(m))
    }

    /// Whether `m` is a move of a pawn of the side to move.
    pub open spec fn is_pawn_move(self, m: Move) -> bool {
        &&& self.board@[m.from_idx()] == Some(self.own_pawn())
        &&& self.is_move_of_pawn(m.from_idx(), m)
    }

    /// Whether `m` is a castling move that the side to move can make.
    pub open spec fn is_castle(self, m: Move) -> bool {
        (self.castle_ok(true) && m == self.castle_move(true)) || (self.castle_ok(false) && m == self.castle_move(false))
    }

    /// Whether `m` is a pseudo-legal move of the side to move.
    pub open spec fn is_pseudo_move(self, m: Move) -> bool {
        ||| self.is_pawn_move(m)
        ||| self.is_piece_move(PieceType::Knight, m)
        ||| self.is_piece_move(PieceType::Bishop, m)
        ||| self.is_piece_move(PieceType::Rook, m)
        ||| self.is_piece_move(PieceType::Queen, m)
        ||| self.is_piece_move(PieceType::King, m)
        ||| self.is_castle(m)
    }

    /// States that agree in every field have the same pseudo-legal moves.
    pub proof fn lemma_pseudo_same(self, other: BoardState, m: Move)
        requires
            self.same_as(other),
        ensures
            self.is_pseudo_move(m) == other.is_pseudo_move(m),
    {
        reveal(BoardState::same_as);
        assert(self.occupancy() == other.occupancy());
        assert forall|k: int, c: crate::piece::Color| self.is_attacked(k, c) == other.is_attacked(k, c) by {
            if self.is_attacked(k, c) {
                let q = choose|q: int| self.attacks_from(q, k, c);
                assert(other.attacks_from(q, k, c));
            }
            if other.is_attacked(k, c) {
                let q = choose|q: int| other.attacks_from(q, k, c);
                assert(self.attacks_from(q, k, c));
            }
        }
        assert(self.castle_ok(true) == other.castle_ok(true));
        assert(self.castle_ok(false) == other.castle_ok(false));
        assert(self.is_castle(m) == other.is_castle(m));
        let from = m.from_idx();
        let to = m.to_idx();
        assert(self.en_passant_moves(from) == other.en_passant_moves(from));
        assert(self.push_moves(from) == other.push_moves(from));
        assert(self.double_push_moves(from) == other.double_push_moves(from));
        assert(self.pawn_capture_set(from).contains(to) == other.pawn_capture_set(from).contains(to));
        assert(self.pawn_arrivals(from, to, self.board@[to]) == other.pawn_arrivals(from, to, other.board@[to]));
        assert(self.is_pawn_move(m) == other.is_pawn_move(m));
        assert forall|ptype: PieceType| self.is_piece_move(ptype, m) == other.is_piece_move(ptype, m) by {
            assert(self.target_set(ptype, from).contains(to) == other.target_set(ptype, from).contains(to));
            assert(self.plain_move(Piece::spec_new(self.side, ptype), from, to) == other.plain_move(
                Piece::spec_new(other.side, ptype),
                from,
                to,
            ));
        }
    }

    /// The two squares of a plain move are the ones it was made of.
    pub proof fn lemma_plain_squares(self, piece: Piece, from: int, to: int)
        requires
            0 <= from < 64,
            0 <= to < 64,
        ensures
            self.plain_move(piece, from, to).from_idx() == from,
            self.plain_move(piece, from, to).to_idx() == to,
    {
        lemma_square_from_index(from);
        lemma_square_from_index(to);
        lemma_new_fields(
            Square::spec_from_index(from),
            Square::spec_from_index(to),
            piece,
            self.board@[to],
            None,
            false,
            false,
            false,
        );
    }

    /// The moves of a piece from a square are its plain moves to the squares of its
    /// target set.
    pub proof fn lemma_piece_moves_from_member(self, ptype: PieceType, from: int, m: Move)
        requires
            0 <= from < 64,
        ensures
            self.piece_moves_from(ptype, from).contains(m) <==> (m.from_idx() == from && self.target_set(
                ptype,
                from,
            ).contains(m.to_idx()) && m == self.plain_move(Piece::spec_new(self.side, ptype), from, m.to_idx())),
    {
        let piece = Piece::spec_new(self.side, ptype);
        let set = self.target_set(ptype, from);
        let sorted = sorted_members(set, 64);
        lemma_sorted_members(set, 64);
        let l = self.moves_to(piece, from, sorted);
        if l.contains(m) {
            let i = choose|i: int| 0 <= i < l.len() && l[i] == m;
            assert(0 <= sorted[i] < 64 && set.contains(sorted[i]));
            self.lemma_plain_squares(piece, from, sorted[i]);
        }
        if m.from_idx() == from && set.contains(m.to_idx()) && m == self.plain_move(piece, from, m.to_idx()) {
            let t = m.to_idx();
            assert(sorted.contains(t));
            let i = choose|i: int| 0 <= i < sorted.len() && sorted[i] == t;
            assert(l[i] == m);
        }
    }

    /// The moves of the first `n` pieces of a list are the moves of each of them.
    pub proof fn lemma_piece_moves_member(self, ptype: PieceType, n: int, m: Move)
        requires
            0 <= n <= self.piece_lists[Piece::spec_new(self.side, ptype).idx()]@.len(),
        ensures
            self.piece_moves(ptype, n).contains(m) <==> exists|i: int|
                0 <= i < n && #[trigger] self.piece_moves_from(
                    ptype,
                    self.piece_lists[Piece::spec_new(self.side, ptype).idx()]@[i].idx(),
                ).contains(m),
        decreases n,
    {
        let list = self.piece_lists[Piece::spec_new(self.side, ptype).idx()]@;
        if n > 0 {
            self.lemma_piece_moves_member(ptype, n - 1, m);
            let head = self.piece_moves(ptype, n - 1);
            let tail = self.piece_moves_from(ptype, list[n - 1].idx());
            lemma_seq_concat_contains_all_elements(head, tail, m);
            if self.piece_moves(ptype, n).contains(m) {
                if head.contains(m) {
                    let i = choose|i: int| 0 <= i < n - 1 && #[trigger] self.piece_moves_from(ptype, list[i].idx()).contains(m);
                    assert(0 <= i < n && self.piece_moves_from(ptype, list[i].idx()).contains(m));
                } else {
                    assert(self.piece_moves_from(ptype, list[n - 1].idx()).contains(m));
                }
            }
            if exists|i: int| 0 <= i < n && #[trigger] self.piece_moves_from(ptype, list[i].idx()).contains(m) {
                let i = choose|i: int| 0 <= i < n && #[trigger] self.piece_moves_from(ptype, list[i].idx()).contains(m);
                if i < n - 1 {
                    assert(head.contains(m));
                }
            }
        } else {
            assert(!self.piece_moves(ptype, n).contains(m));
        }
    }

    /// The moves generated for a kind of piece are exactly its plain moves.
    pub proof fn lemma_all_piece_moves_member(self, ptype: PieceType, m: Move)
        requires
            self.wf(),
        ensures
            self.all_piece_moves(ptype).contains(m) <==> self.is_piece_move(ptype, m),
    {
        let piece = Piece::spec_new(self.side, ptype);
        lemma_piece_new_parts(self.side, ptype);
        let list = self.piece_lists[piece.idx()]@;
        self.lemma_piece_moves_member(ptype, list.len() as int, m);
        lemma_fields_pack(m.0);
        if self.all_piece_moves(ptype).contains(m) {
            let i = choose|i: int| 0 <= i < list.len() && #[trigger] self.piece_moves_from(ptype, list[i].idx()).contains(m);
            self.lemma_listed(piece, i);
            self.lemma_piece_moves_from_member(ptype, list[i].idx(), m);
        }
        if self.is_piece_move(ptype, m) {
            let from = m.from_idx();
            let sq = Square::spec_from_index(from);
            lemma_square_from_index(from);
            self.lemma_list_complete(piece, sq);
            let i = choose|i: int| 0 <= i < list.len() && list[i] == sq;
            self.lemma_piece_moves_from_member(ptype, from, m);
            assert(self.piece_moves_from(ptype, list[i].idx()).contains(m));
        }
    }

    /// Every move that brings a pawn from one square to another starts and ends there.
    pub proof fn lemma_arrival_squares(self, from: int, to: int, capture: Option<Piece>, m: Move)
        requires
            0 <= from < 64,
            0 <= to < 64,
            self.pawn_arrivals(from, to, capture).contains(m),
        ensures
            m.from_idx() == from,
            m.to_idx() == to,
    {
        lemma_square_from_index(from);
        lemma_square_from_index(to);
        let f = Square::spec_from_index(from);
        let t = Square::spec_from_index(to);
        let p = self.own_pawn();
        lemma_new_fields(f, t, p, capture, None, false, false, false);
        lemma_new_fields(f, t, p, capture, Some(Piece::spec_new(self.side, PieceType::Queen)), false, false, false);
        lemma_new_fields(f, t, p, capture, Some(Piece::spec_new(self.side, PieceType::Rook)), false, false, false);
        lemma_new_fields(f, t, p, capture, Some(Piece::spec_new(self.side, PieceType::Bishop)), false, false, false);
        lemma_new_fields(f, t, p, capture, Some(Piece::spec_new(self.side, PieceType::Knight)), false, false, false);
        let l = self.pawn_arrivals(from, to, capture);
        let i = choose|i: int| 0 <= i < l.len() && l[i] == m;
        assert(l[i] == m);
    }

    /// The captures of a pawn on the first `n` of a list of squares are its arrivals on
    /// each of them.
    pub proof fn lemma_pawn_captures_member(self, from: int, targets: Seq<int>, n: int, m: Move)
        requires
            0 <= n <= targets.len(),
        ensures
            self.pawn_captures(from, targets, n).contains(m) <==> exists|j: int|
                0 <= j < n && #[trigger] self.pawn_arrivals(from, targets[j], self.board@[targets[j]]).contains(m),
        decreases n,
    {
        if n > 0 {
            self.lemma_pawn_captures_member(from, targets, n - 1, m);
            let head = self.pawn_captures(from, targets, n - 1);
            let tail = self.pawn_arrivals(from, targets[n - 1], self.board@[targets[n - 1]]);
            lemma_seq_concat_contains_all_elements(head, tail, m);
            if self.pawn_captures(from, targets, n).contains(m) {
                if head.contains(m) {
                    let j = choose|j: int|
                        0 <= j < n - 1 && #[trigger] self.pawn_arrivals(from, targets[j], self.board@[targets[j]]).contains(m);
                    assert(0 <= j < n && self.pawn_arrivals(from, targets[j], self.board@[targets[j]]).contains(m));
                } else {
                    assert(self.pawn_arrivals(from, targets[n - 1], self.board@[targets[n - 1]]).contains(m));
                }
            }
            if exists|j: int|
                0 <= j < n && #[trigger] self.pawn_arrivals(from, targets[j], self.board@[targets[j]]).contains(m) {
                let j = choose|j: int|
                    0 <= j < n && #[trigger] self.pawn_arrivals(from, targets[j], self.board@[targets[j]]).contains(m);
                if j < n - 1 {
                    assert(head.contains(m));
                }
            }
        } else {
            assert(!self.pawn_captures(from, targets, n).contains(m));
        }
    }

    /// The moves generated for the pawn on a square are exactly the moves of that pawn,
    /// and all of them start on its square.
    pub proof fn lemma_pawn_moves_from_member(self, from: int, m: Move)
        requires
            0 <= from < 64,
        ensures
            self.pawn_moves_from(from).contains(m) <==> (m.from_idx() == from && self.is_move_of_pawn(from, m)),
            self.is_move_of_pawn(from, m) ==> m.from_idx() == from,
    {
        reveal(BoardState::pawn_moves_from);
        let set = self.pawn_capture_set(from);
        let targets = sorted_members(set, 64);
        lemma_sorted_members(set, 64);
        let a = self.en_passant_moves(from);
        let b = self.push_moves(from);
        let c = self.double_push_moves(from);
        let d = self.pawn_captures(from, targets, targets.len() as int);
        lemma_seq_concat_contains_all_elements(a, b, m);
        lemma_seq_concat_contains_all_elements(a + b, c, m);
        lemma_seq_concat_contains_all_elements(a + b + c, d, m);
        self.lemma_pawn_captures_member(from, targets, targets.len() as int, m);
        lemma_square_from_index(from);
        let f = Square::spec_from_index(from);
        if a.contains(m) {
            let e = self.en_passant->Some_0;
            lemma_new_fields(f, e, self.own_pawn(), Some(self.enemy_pawn()), None, false, true, false);
            assert(a[0] == m);
        }
        if b.contains(m) {
            self.lemma_arrival_squares(from, from + self.forward(), None, m);
        }
        if c.contains(m) {
            let t = from + 2 * self.forward();
            lemma_square_from_index(t);
            lemma_new_fields(f, Square::spec_from_index(t), self.own_pawn(), None, None, true, false, false);
            assert(c[0] == m);
        }
        if d.contains(m) {
            let j = choose|j: int|
                0 <= j < targets.len() && #[trigger] self.pawn_arrivals(from, targets[j], self.board@[targets[j]]).contains(m);
            assert(0 <= targets[j] < 64 && set.contains(targets[j]));
            self.lemma_arrival_squares(from, targets[j], self.board@[targets[j]], m);
        }
        if set.contains(m.to_idx()) && self.pawn_arrivals(from, m.to_idx(), self.board@[m.to_idx()]).contains(m) {
            let t = m.to_idx();
            assert(targets.contains(t));
            let j = choose|j: int| 0 <= j < targets.len() && targets[j] == t;
            assert(self.pawn_arrivals(from, targets[j], self.board@[targets[j]]).contains(m));
            self.lemma_arrival_squares(from, t, self.board@[t], m);
        }
    }

    /// The moves of the first `n` pawns of the pawn list are the moves of each of them.
    pub proof fn lemma_pawn_moves_member(self, n: int, m: Move)
        requires
            0 <= n <= self.piece_lists[self.own_pawn().idx()]@.len(),
        ensures
            self.pawn_moves(n).contains(m) <==> exists|i: int|
                0 <= i < n && #[trigger] self.pawn_moves_from(self.piece_lists[self.own_pawn().idx()]@[i].idx()).contains(m),
        decreases n,
    {
        let list = self.piece_lists[self.own_pawn().idx()]@;
        if n > 0 {
            self.lemma_pawn_moves_member(n - 1, m);
            let head = self.pawn_moves(n - 1);
            let tail = self.pawn_moves_from(list[n - 1].idx());
            lemma_seq_concat_contains_all_elements(head, tail, m);
            if self.pawn_moves(n).contains(m) {
                if head.contains(m) {
                    let i = choose|i: int| 0 <= i < n - 1 && #[trigger] self.pawn_moves_from(list[i].idx()).contains(m);
                    assert(0 <= i < n && self.pawn_moves_from(list[i].idx()).contains(m));
                } else {
                    assert(self.pawn_moves_from(list[n - 1].idx()).contains(m));
                }
            }
            if exists|i: int| 0 <= i < n && #[trigger] self.pawn_moves_from(list[i].idx()).contains(m) {
                let i = choose|i: int| 0 <= i < n && #[trigger] self.pawn_moves_from(list[i].idx()).contains(m);
                if i < n - 1 {
                    assert(head.contains(m));
                }
            }
        } else {
            assert(!self.pawn_moves(n).contains(m));
        }
    }

    /// The moves generated for the pawns are exactly the pawn moves.
    pub proof fn lemma_all_pawn_moves_member(self, m: Move)
        requires
            self.wf(),
        ensures
            self.pawn_moves(self.piece_lists[self.own_pawn().idx()]@.len() as int).contains(m) <==> self.is_pawn_move(m),
    {
        let piece = self.own_pawn();
        lemma_piece_new_parts(self.side, PieceType::Pawn);
        let list = self.piece_lists[piece.idx()]@;
        self.lemma_pawn_moves_member(list.len() as int, m);
        lemma_fields_pack(m.0);
        if self.pawn_moves(list.len() as int).contains(m) {
            let i = choose|i: int| 0 <= i < list.len() && #[trigger] self.pawn_moves_from(list[i].idx()).contains(m);
            self.lemma_listed(piece, i);
            self.lemma_pawn_moves_from_member(list[i].idx(), m);
        }
        if self.is_pawn_move(m) {
            let from = m.from_idx();
            let sq = Square::spec_from_index(from);
            lemma_square_from_index(from);
            self.lemma_list_complete(piece, sq);
            let i = choose|i: int| 0 <= i < list.len() && list[i] == sq;
            self.lemma_pawn_moves_from_member(from, m);
            assert(self.pawn_moves_from(list[i].idx()).contains(m));
        }
    }

    /// A move is among the pseudo-legal moves generated for a position exactly when it is
    /// a pseudo-legal move of the position: nothing is left out and nothing is added.
    pub proof fn lemma_pseudo_moves_member(self, m: Move)
        requires
            self.wf(),
        ensures
            self.spec_pseudo_moves().contains(m) <==> self.is_pseudo_move(m),
    {
        reveal(BoardState::spec_pseudo_moves);
        let p = self.pawn_moves(self.piece_lists[self.own_pawn().idx()]@.len() as int);
        let n = self.all_piece_moves(PieceType::Knight);
        let b = self.all_piece_moves(PieceType::Bishop);
        let r = self.all_piece_moves(PieceType::Rook);
        let q = self.all_piece_moves(PieceType::Queen);
        let k = self.all_piece_moves(PieceType::King);
        let c = self.castle_moves();
        lemma_seq_concat_contains_all_elements(p, n, m);
        lemma_seq_concat_contains_all_elements(p + n, b, m);
        lemma_seq_concat_contains_all_elements(p + n + b, r, m);
        lemma_seq_concat_contains_all_elements(p + n + b + r, q, m);
        lemma_seq_concat_contains_all_elements(p + n + b + r + q, k, m);
        lemma_seq_concat_contains_all_elements(p + n + b + r + q + k, c, m);
        self.lemma_all_pawn_moves_member(m);
        self.lemma_all_piece_moves_member(PieceType::Knight, m);
        self.lemma_all_piece_moves_member(PieceType::Bishop, m);
        self.lemma_all_piece_moves_member(PieceType::Rook, m);
        self.lemma_all_piece_moves_member(PieceType::Queen, m);
        self.lemma_all_piece_moves_member(PieceType::King, m);
        let kingside: Seq<Move> = if self.castle_ok(true) { seq![self.castle_move(true)] } else { Seq::empty() };
        let queenside: Seq<Move> = if self.castle_ok(false) { seq![self.castle_move(false)] } else { Seq::empty() };
        lemma_seq_concat_contains_all_elements(kingside, queenside, m);
        if kingside.contains(m) {
            assert(kingside[0] == m);
        }
        if queenside.contains(m) {
            assert(queenside[0] == m);
        }
        if self.castle_ok(true) && m == self.castle_move(true) {
            assert(kingside[0] == m);
        }
        if self.castle_ok(false) && m == self.castle_move(false) {
            assert(queenside[0] == m);
        }
    }
}

impl BoardState {
    /// The moves that bring a pawn from one square to another differ from each other;
    /// each carries the capture it was given and none of the flags.
    pub proof fn lemma_arrivals_distinct(self, from: int, to: int, capture: Option<Piece>)
        requires
            0 <= from < 64,
            0 <= to < 64,
            capture != Some(Piece::Empty),
        ensures
            self.pawn_arrivals(from, to, capture).no_duplicates(),
            forall|i: int|
                0 <= i < self.pawn_arrivals(from, to, capture).len() ==> {
                    let m = #[trigger] self.pawn_arrivals(from, to, capture)[i];
                    &&& m.spec_capture() == capture
                    &&& !m.spec_is_en_passant()
                    &&& !m.spec_is_double_pawn_push()
                    &&& !m.spec_is_castling()
                    &&& m.from_idx() == from
                    &&& m.to_idx() == to
                },
    {
        lemma_square_from_index(from);
        lemma_square_from_index(to);
        let f = Square::spec_from_index(from);
        let t = Square::spec_from_index(to);
        let p = self.own_pawn();
        lemma_piece_new_parts(self.side, PieceType::Queen);
        lemma_piece_new_parts(self.side, PieceType::Rook);
        lemma_piece_new_parts(self.side, PieceType::Bishop);
        lemma_piece_new_parts(self.side, PieceType::Knight);
        lemma_new_fields(f, t, p, capture, None, false, false, false);
        lemma_new_fields(f, t, p, capture, Some(Piece::spec_new(self.side, PieceType::Queen)), false, false, false);
        lemma_new_fields(f, t, p, capture, Some(Piece::spec_new(self.side, PieceType::Rook)), false, false, false);
        lemma_new_fields(f, t, p, capture, Some(Piece::spec_new(self.side, PieceType::Bishop)), false, false, false);
        lemma_new_fields(f, t, p, capture, Some(Piece::spec_new(self.side, PieceType::Knight)), false, false, false);
        let l = self.pawn_arrivals(from, to, capture);
        assert forall|i: int, j: int| 0 <= i < l.len() && 0 <= j < l.len() && i != j implies l[i] != l[j] by {
            assert(l[i].spec_promotion() != l[j].spec_promotion());
        }
    }

    /// The plain moves of a piece from a square to ascending targets differ from each
    /// other.
    pub proof fn lemma_moves_to_distinct(self, piece: Piece, from: int, targets: Seq<int>)
        requires
            0 <= from < 64,
            forall|i: int| 0 <= i < targets.len() ==> 0 <= #[trigger] targets[i] < 64,
            forall|i: int, j: int| 0 <= i < j < targets.len() ==> targets[i] < targets[j],
        ensures
            self.moves_to(piece, from, targets).no_duplicates(),
    {
        let l = self.moves_to(piece, from, targets);
        assert forall|i: int, j: int| 0 <= i < l.len() && 0 <= j < l.len() && i != j implies l[i] != l[j] by {
            self.lemma_plain_squares(piece, from, targets[i]);
            self.lemma_plain_squares(piece, from, targets[j]);
            if i < j {
                assert(targets[i] < targets[j]);
            } else {
                assert(targets[j] < targets[i]);
            }
        }
    }

    /// The moves of the first `n` pieces of a list differ from each other.
    pub proof fn lemma_piece_moves_distinct(self, ptype: PieceType, n: int)
        requires
            self.wf(),
            0 <= n <= self.piece_lists[Piece::spec_new(self.side, ptype).idx()]@.len(),
        ensures
            self.piece_moves(ptype, n).no_duplicates(),
        decreases n,
    {
        let piece = Piece::spec_new(self.side, ptype);
        lemma_piece_new_parts(self.side, ptype);
        let list = self.piece_lists[piece.idx()]@;
        if n > 0 {
            self.lemma_piece_moves_distinct(ptype, n - 1);
            let head = self.piece_moves(ptype, n - 1);
            let from = list[n - 1].idx();
            let tail = self.piece_moves_from(ptype, from);
            self.lemma_listed(piece, n - 1);
            let set = self.target_set(ptype, from);
            lemma_sorted_members(set, 64);
            self.lemma_moves_to_distinct(piece, from, sorted_members(set, 64));
            assert forall|i: int, j: int| 0 <= i < head.len() && 0 <= j < tail.len() implies head[i] != tail[j] by {
                let m = head[i];
                self.lemma_piece_moves_member(ptype, n - 1, m);
                assert(head.contains(m));
                let k = choose|k: int| 0 <= k < n - 1 && #[trigger] self.piece_moves_from(ptype, list[k].idx()).contains(m);
                self.lemma_listed(piece, k);
                self.lemma_piece_moves_from_member(ptype, list[k].idx(), m);
                self.lemma_piece_moves_from_member(ptype, from, tail[j]);
                assert(tail.contains(tail[j]));
                reveal(BoardState::lists_ok);
                assert(list[k] != list[n - 1]);
                lemma_square_index(list[k], list[n - 1]);
            }
            vstd::seq_lib::lemma_no_dup_in_concat(head, tail);
        }
    }

    /// The captures of a pawn on ascending occupied targets differ from each other, and
    /// each of them carries a capture and none of the flags.
    pub proof fn lemma_pawn_captures_distinct(self, from: int, targets: Seq<int>, n: int)
        requires
            self.wf(),
            0 <= from < 64,
            0 <= n <= targets.len(),
            forall|i: int| 0 <= i < targets.len() ==> 0 <= #[trigger] targets[i] < 64 && self.board@[targets[i]] is Some,
            forall|i: int, j: int| 0 <= i < j < targets.len() ==> targets[i] < targets[j],
        ensures
            self.pawn_captures(from, targets, n).no_duplicates(),
            forall|i: int|
                0 <= i < self.pawn_captures(from, targets, n).len() ==> {
                    let m = #[trigger] self.pawn_captures(from, targets, n)[i];
                    &&& m.spec_capture() is Some
                    &&& !m.spec_is_en_passant()
                    &&& !m.spec_is_double_pawn_push()
                    &&& exists|k: int| 0 <= k < n && m.to_idx() == targets[k]
                },
        decreases n,
    {
        if n > 0 {
            self.lemma_pawn_captures_distinct(from, targets, n - 1);
            let head = self.pawn_captures(from, targets, n - 1);
            let t = targets[n - 1];
            self.lemma_bitboards(t);
            let tail = self.pawn_arrivals(from, t, self.board@[t]);
            self.lemma_arrivals_distinct(from, t, self.board@[t]);
            assert forall|i: int, j: int| 0 <= i < head.len() && 0 <= j < tail.len() implies head[i] != tail[j] by {
                let k = choose|k: int| 0 <= k < n - 1 && head[i].to_idx() == targets[k];
                assert(targets[k] < targets[n - 1]);
                assert(tail[j].to_idx() == t);
            }
            vstd::seq_lib::lemma_no_dup_in_concat(head, tail);
            let all = self.pawn_captures(from, targets, n);
            assert forall|i: int| 0 <= i < all.len() implies {
                let m = #[trigger] all[i];
                &&& m.spec_capture() is Some
                &&& !m.spec_is_en_passant()
                &&& !m.spec_is_double_pawn_push()
                &&& exists|k: int| 0 <= k < n && m.to_idx() == targets[k]
            } by {
                if i < head.len() {
                    assert(all[i] == head[i]);
                    let k = choose|k: int| 0 <= k < n - 1 && head[i].to_idx() == targets[k];
                    assert(0 <= k < n && all[i].to_idx() == targets[k]);
                } else {
                    assert(all[i] == tail[i - head.len()]);
                    assert(all[i].to_idx() == targets[n - 1]);
                }
            }
        }
    }

    /// The moves of the pawn on a square differ from each other.
    pub proof fn lemma_pawn_moves_from_distinct(self, from: int)
        requires
            self.wf(),
            0 <= from < 64,
        ensures
            self.pawn_moves_from(from).no_duplicates(),
    {
        reveal(BoardState::pawn_moves_from);
        let set = self.pawn_capture_set(from);
        let targets = sorted_members(set, 64);
        lemma_sorted_members(set, 64);
        let a = self.en_passant_moves(from);
        let b = self.push_moves(from);
        let c = self.double_push_moves(from);
        let d = self.pawn_captures(from, targets, targets.len() as int);
        lemma_square_from_index(from);
        let f = Square::spec_from_index(from);
        lemma_piece_new_parts(self.side.spec_opposite(), PieceType::Pawn);
        if a.len() > 0 {
            let e = self.en_passant->Some_0;
            lemma_new_fields(f, e, self.own_pawn(), Some(self.enemy_pawn()), None, false, true, false);
        }
        let step = from + self.forward();
        if b.len() > 0 {
            self.lemma_arrivals_distinct(from, step, None);
        }
        if c.len() > 0 {
            let t = from + 2 * self.forward();
            lemma_square_from_index(t);
            lemma_new_fields(f, Square::spec_from_index(t), self.own_pawn(), None, None, true, false, false);
        }
        assert forall|i: int| 0 <= i < targets.len() implies 0 <= #[trigger] targets[i] < 64 && self.board@[targets[i]]
            is Some by {
            assert(set.contains(targets[i]));
        }
        self.lemma_pawn_captures_distinct(from, targets, targets.len() as int);
        assert forall|i: int, j: int| 0 <= i < a.len() && 0 <= j < b.len() implies a[i] != b[j] by {
            assert(a[i].spec_is_en_passant() && !b[j].spec_is_en_passant());
        }
        vstd::seq_lib::lemma_no_dup_in_concat(a, b);
        let ab = a + b;
        assert forall|i: int, j: int| 0 <= i < ab.len() && 0 <= j < c.len() implies ab[i] != c[j] by {
            if i < a.len() {
                assert(ab[i] == a[i]);
                assert(a[i].spec_is_en_passant() && !c[j].spec_is_en_passant());
            } else {
                assert(ab[i] == b[i - a.len()]);
                assert(!b[i - a.len()].spec_is_double_pawn_push() && c[j].spec_is_double_pawn_push());
            }
        }
        vstd::seq_lib::lemma_no_dup_in_concat(ab, c);
        let abc = ab + c;
        assert forall|i: int, j: int| 0 <= i < abc.len() && 0 <= j < d.len() implies abc[i] != d[j] by {
            if i < a.len() {
                assert(abc[i] == a[i]);
                assert(a[i].spec_is_en_passant() && !d[j].spec_is_en_passant());
            } else if i < ab.len() {
                assert(abc[i] == b[i - a.len()]);
                assert(b[i - a.len()].spec_capture() is None && d[j].spec_capture() is Some);
            } else {
                assert(abc[i] == c[i - ab.len()]);
                assert(c[i - ab.len()].spec_is_double_pawn_push() && !d[j].spec_is_double_pawn_push());
            }
        }
        vstd::seq_lib::lemma_no_dup_in_concat(abc, d);
    }

    /// The moves of the first `n` pawns of the pawn list differ from each other.
    pub proof fn lemma_pawn_moves_distinct(self, n: int)
        requires
            self.wf(),
            0 <= n <= self.piece_lists[self.own_pawn().idx()]@.len(),
        ensures
            self.pawn_moves(n).no_duplicates(),
        decreases n,
    {
        let piece = self.own_pawn();
        lemma_piece_new_parts(self.side, PieceType::Pawn);
        let list = self.piece_lists[piece.idx()]@;
        if n > 0 {
            self.lemma_pawn_moves_distinct(n - 1);
            let head = self.pawn_moves(n - 1);
            let from = list[n - 1].idx();
            let tail = self.pawn_moves_from(from);
            self.lemma_listed(piece, n - 1);
            self.lemma_pawn_moves_from_distinct(from);
            assert forall|i: int, j: int| 0 <= i < head.len() && 0 <= j < tail.len() implies head[i] != tail[j] by {
                let m = head[i];
                self.lemma_pawn_moves_member(n - 1, m);
                assert(head.contains(m));
                let k = choose|k: int| 0 <= k < n - 1 && #[trigger] self.pawn_moves_from(list[k].idx()).contains(m);
                self.lemma_listed(piece, k);
                self.lemma_pawn_moves_from_member(list[k].idx(), m);
                self.lemma_pawn_moves_from_member(from, tail[j]);
                assert(tail.contains(tail[j]));
                reveal(BoardState::lists_ok);
                assert(list[k] != list[n - 1]);
                lemma_square_index(list[k], list[n - 1]);
            }
            vstd::seq_lib::lemma_no_dup_in_concat(head, tail);
        }
    }

    /// No move is generated twice.
    pub proof fn lemma_pseudo_moves_distinct(self)
        requires
            self.wf(),
        ensures
            self.spec_pseudo_moves().no_duplicates(),
    {
        reveal(BoardState::spec_pseudo_moves);
        let pawn_list = self.piece_lists[self.own_pawn().idx()]@;
        let p = self.pawn_moves(pawn_list.len() as int);
        let n = self.all_piece_moves(PieceType::Knight);
        let b = self.all_piece_moves(PieceType::Bishop);
        let r = self.all_piece_moves(PieceType::Rook);
        let q = self.all_piece_moves(PieceType::Queen);
        let k = self.all_piece_moves(PieceType::King);
        let c = self.castle_moves();
        self.lemma_pawn_moves_distinct(pawn_list.len() as int);
        self.lemma_kind_distinct(PieceType::Knight);
        self.lemma_kind_distinct(PieceType::Bishop);
        self.lemma_kind_distinct(PieceType::Rook);
        self.lemma_kind_distinct(PieceType::Queen);
        self.lemma_kind_distinct(PieceType::King);
        lemma_piece_new_parts(self.side, PieceType::Pawn);
        lemma_piece_new_parts(self.side, PieceType::Knight);
        lemma_piece_new_parts(self.side, PieceType::Bishop);
        lemma_piece_new_parts(self.side, PieceType::Rook);
        lemma_piece_new_parts(self.side, PieceType::Queen);
        lemma_piece_new_parts(self.side, PieceType::King);
        // Moves of different kinds of piece start on squares that hold different pieces.
        assert forall|m: Move| p.contains(m) implies self.board@[m.from_idx()] == Some(self.own_pawn()) by {
            self.lemma_all_pawn_moves_member(m);
        }
        assert forall|m: Move, t: PieceType| #[trigger] self.all_piece_moves(t).contains(m) implies self.board@[m.from_idx()]
            == Some(Piece::spec_new(self.side, t)) by {
            self.lemma_all_piece_moves_member(t, m);
        }
        assert forall|i: int, j: int| 0 <= i < p.len() && 0 <= j < n.len() implies p[i] != n[j] by {
            assert(p.contains(p[i]) && n.contains(n[j]));
        }
        vstd::seq_lib::lemma_no_dup_in_concat(p, n);
        let pn = p + n;
        assert forall|m: Move| pn.contains(m) implies self.board@[m.from_idx()] != Some(
            Piece::spec_new(self.side, PieceType::Bishop),
        ) && self.board@[m.from_idx()] != Some(Piece::spec_new(self.side, PieceType::Rook)) && self.board@[m.from_idx()]
            != Some(Piece::spec_new(self.side, PieceType::Queen)) && self.board@[m.from_idx()] != Some(
            Piece::spec_new(self.side, PieceType::King),
        ) by {
            lemma_seq_concat_contains_all_elements(p, n, m);
        }
        assert forall|i: int, j: int| 0 <= i < pn.len() && 0 <= j < b.len() implies pn[i] != b[j] by {
            assert(pn.contains(pn[i]) && b.contains(b[j]));
        }
        vstd::seq_lib::lemma_no_dup_in_concat(pn, b);
        let pnb = pn + b;
        assert forall|m: Move| pnb.contains(m) implies self.board@[m.from_idx()] != Some(
            Piece::spec_new(self.side, PieceType::Rook),
        ) && self.board@[m.from_idx()] != Some(Piece::spec_new(self.side, PieceType::Queen)) && self.board@[m.from_idx()]
            != Some(Piece::spec_new(self.side, PieceType::King)) by {
            lemma_seq_concat_contains_all_elements(pn, b, m);
        }
        assert forall|i: int, j: int| 0 <= i < pnb.len() && 0 <= j < r.len() implies pnb[i] != r[j] by {
            assert(pnb.contains(pnb[i]) && r.contains(r[j]));
        }
        vstd::seq_lib::lemma_no_dup_in_concat(pnb, r);
        let pnbr = pnb + r;
        assert forall|m: Move| pnbr.contains(m) implies self.board@[m.from_idx()] != Some(
            Piece::spec_new(self.side, PieceType::Queen),
        ) && self.board@[m.from_idx()] != Some(Piece::spec_new(self.side, PieceType::King)) by {
            lemma_seq_concat_contains_all_elements(pnb, r, m);
        }
        assert forall|i: int, j: int| 0 <= i < pnbr.len() && 0 <= j < q.len() implies pnbr[i] != q[j] by {
            assert(pnbr.contains(pnbr[i]) && q.contains(q[j]));
        }
        vstd::seq_lib::lemma_no_dup_in_concat(pnbr, q);
        let pnbrq = pnbr + q;
        assert forall|m: Move| pnbrq.contains(m) implies self.board@[m.from_idx()] != Some(
            Piece::spec_new(self.side, PieceType::King),
        ) by {
            lemma_seq_concat_contains_all_elements(pnbr, q, m);
        }
        assert forall|i: int, j: int| 0 <= i < pnbrq.len() && 0 <= j < k.len() implies pnbrq[i] != k[j] by {
            assert(pnbrq.contains(pnbrq[i]) && k.contains(k[j]));
        }
        vstd::seq_lib::lemma_no_dup_in_concat(pnbrq, k);
        let plain = pnbrq + k;
        // No move generated so far castles; the two castling moves end on different squares.
        assert forall|m: Move| plain.contains(m) implies !m.spec_is_castling() by {
            lemma_seq_concat_contains_all_elements(pnbrq, k, m);
            lemma_seq_concat_contains_all_elements(pnbr, q, m);
            lemma_seq_concat_contains_all_elements(pnbr, q, m);
            lemma_seq_concat_contains_all_elements(pnb, r, m);
            lemma_seq_concat_contains_all_elements(pn, b, m);
            lemma_seq_concat_contains_all_elements(p, n, m);
            self.lemma_not_castling(m);
        }
        self.lemma_castles_distinct();
        assert forall|i: int, j: int| 0 <= i < plain.len() && 0 <= j < c.len() implies plain[i] != c[j] by {
            assert(plain.contains(plain[i]));
        }
        vstd::seq_lib::lemma_no_dup_in_concat(plain, c);
    }

    /// The plain moves of one kind of piece differ from each other.
    pub proof fn lemma_kind_distinct(self, ptype: PieceType)
        requires
            self.wf(),
        ensures
            self.all_piece_moves(ptype).no_duplicates(),
    {
        self.lemma_piece_moves_distinct(
            ptype,
            self.piece_lists[Piece::spec_new(self.side, ptype).idx()]@.len() as int,
        );
    }

    /// No pawn move and no plain move of a piece carries the castling flag.
    pub proof fn lemma_not_castling(self, m: Move)
        requires
            self.wf(),
            self.is_pawn_move(m) || self.is_piece_move(PieceType::Knight, m) || self.is_piece_move(PieceType::Bishop, m)
                || self.is_piece_move(PieceType::Rook, m) || self.is_piece_move(PieceType::Queen, m) || self.is_piece_move(
                PieceType::King,
                m,
            ) || self.pawn_moves(self.piece_lists[self.own_pawn().idx()]@.len() as int).contains(m)
                || self.all_piece_moves(PieceType::Knight).contains(m) || self.all_piece_moves(PieceType::Bishop).contains(m)
                || self.all_piece_moves(PieceType::Rook).contains(m) || self.all_piece_moves(PieceType::Queen).contains(m)
                || self.all_piece_moves(PieceType::King).contains(m),
        ensures
            !m.spec_is_castling(),
    {
        self.lemma_all_pawn_moves_member(m);
        self.lemma_all_piece_moves_member(PieceType::Knight, m);
        self.lemma_all_piece_moves_member(PieceType::Bishop, m);
        self.lemma_all_piece_moves_member(PieceType::Rook, m);
        self.lemma_all_piece_moves_member(PieceType::Queen, m);
        self.lemma_all_piece_moves_member(PieceType::King, m);
        lemma_fields_pack(m.0);
        let from = m.from_idx();
        let to = m.to_idx();
        lemma_square_from_index(from);
        lemma_square_from_index(to);
        let f = Square::spec_from_index(from);
        let t = Square::spec_from_index(to);
        if self.is_pawn_move(m) {
            lemma_piece_new_parts(self.side.spec_opposite(), PieceType::Pawn);
            if self.en_passant_moves(from).contains(m) {
                let e = self.en_passant->Some_0;
                lemma_new_fields(f, e, self.own_pawn(), Some(self.enemy_pawn()), None, false, true, false);
                assert(self.en_passant_moves(from)[0] == m);
            } else if self.push_moves(from).contains(m) {
                let step = from + self.forward();
                self.lemma_arrivals_distinct(from, step, None);
                let l = self.push_moves(from);
                let i = choose|i: int| 0 <= i < l.len() && l[i] == m;
                assert(l[i] == m);
            } else if self.double_push_moves(from).contains(m) {
                let d = from + 2 * self.forward();
                lemma_square_from_index(d);
                lemma_new_fields(f, Square::spec_from_index(d), self.own_pawn(), None, None, true, false, false);
                assert(self.double_push_moves(from)[0] == m);
            } else {
                self.lemma_bitboards(to);
                self.lemma_arrivals_distinct(from, to, self.board@[to]);
                let l = self.pawn_arrivals(from, to, self.board@[to]);
                let i = choose|i: int| 0 <= i < l.len() && l[i] == m;
                assert(l[i] == m);
            }
        } else {
            let piece = self.board@[from]->Some_0;
            lemma_new_fields(f, t, piece, self.board@[to], None, false, false, false);
        }
    }

    /// The castling moves carry the castling flag and differ from each other.
    pub proof fn lemma_castles_distinct(self)
        ensures
            self.castle_moves().no_duplicates(),
            forall|i: int| 0 <= i < self.castle_moves().len() ==> (#[trigger] self.castle_moves()[i]).spec_is_castling(),
    {
        let k = self.king_home();
        lemma_square_from_index(k);
        lemma_square_from_index(k + 2);
        lemma_square_from_index(k - 2);
        let king = Piece::spec_new(self.side, PieceType::King);
        lemma_new_fields(
            Square::spec_from_index(k),
            Square::spec_from_index(k + 2),
            king,
            None,
            None,
            false,
            false,
            true,
        );
        lemma_new_fields(
            Square::spec_from_index(k),
            Square::spec_from_index(k - 2),
            king,
            None,
            None,
            false,
            false,
            true,
        );
        let c = self.castle_moves();
        assert forall|i: int, j: int| 0 <= i < c.len() && 0 <= j < c.len() && i != j implies c[i] != c[j] by {
            assert(c[i].to_idx() != c[j].to_idx());
        }
    }
}

} // verus!
