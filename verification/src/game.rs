//! A game in progress: the board, the tables it needs, the history for taking moves back
//! and for detecting repetitions, and the rules that end a game.

use crate::attack_pregen::PregenAttacks;
use crate::bitboard::{bit, lemma_bits_equal};
use crate::board_state::BoardState;
use crate::fen_parser::{fen_describes, fen_valid};
use crate::move_encode::Move;
use crate::piece::Color;
use crate::pseudo_move_gen::get_pseudo_moves;
use crate::zobrist::ZobristHasher;
use std::collections::HashMap;
use vstd::prelude::*;

verus! {

broadcast use vstd::std_specs::hash::group_hash_axioms;

/// Largest magnitude of a score that the search passes around.
pub const SCORE_LIMIT: i32 = 2_147_483_647;

/// What a transposition table entry says of its score.
#[derive(Copy, Clone, PartialEq, Eq, Debug, Structural)]
pub enum EntryType {
    Exact,
    LowerBound,
    UpperBound,
}

/// A result of an earlier search of a position.
#[derive(Copy, Clone, Debug)]
pub struct TTEntry {
    pub score: i32,
    pub depth: u8,
    pub entry_type: EntryType,
}

/// How a game stands after a move.
#[derive(Copy, Clone, PartialEq, Eq, Debug, Structural)]
pub enum GameEnd {
    /// The game goes on.
    Ongoing,
    /// The side to move is in check and has no legal move.
    Checkmate,
    /// The side to move is not in check and has no legal move.
    Stalemate,
    /// The position has occurred three times.
    Repetition,
    /// A hundred plies have passed without a pawn move or a capture.
    FiftyMoves,
}

/// How often `h` occurs among the first `n` entries of `hashes`.
pub open spec fn occurrences(hashes: Seq<u64>, h: u64, n: int) -> int
    decreases n,
{
    if n <= 0 {
        0
    } else {
        occurrences(hashes, h, n - 1) + (if hashes[n - 1] == h { 1int } else { 0 })
    }
}

impl BoardState {
    /// Whether `m` can be made and making it does not leave the mover's king attacked.
    #[verifier::opaque]
    pub open spec fn is_safe(self, m: Move) -> bool {
        &&& self.move_fits(m)
        &&& exists|after: BoardState| #[trigger] self.is_made(m, after) && after.wf() && !after.spec_is_check(self.side)
    }

    /// Whether `m` is a legal move of the position: a pseudo-legal move of the side to
    /// move that does not leave its king attacked.
    pub open spec fn is_legal(self, m: Move) -> bool {
        self.is_pseudo_move(m) && self.is_safe(m)
    }

    /// Whether the side to move has a legal move.
    pub open spec fn has_legal_move(self) -> bool {
        exists|m: Move| #[trigger] self.is_legal(m)
    }

    /// Whether the side to move is checkmated.
    pub open spec fn spec_is_checkmate(self) -> bool {
        self.spec_is_check(self.side) && !self.has_legal_move()
    }

    /// Whether the side to move is stalemated.
    pub open spec fn spec_is_stalemate(self) -> bool {
        !self.spec_is_check(self.side) && !self.has_legal_move()
    }

    /// A state that agrees with a consistent one in every field is consistent, and its
    /// hashes are right if the other's are.
    pub proof fn lemma_same_wf(self, other: BoardState, zobrist: ZobristHasher)
        requires
            self.same_as(other),
        ensures
            other.wf() ==> self.wf(),
            other.hash_ok(zobrist) ==> self.hash_ok(zobrist),
            other.same_as(self),
            self.side == other.side,
            self.board == other.board,
            self.zobrist_hash == other.zobrist_hash,
    {
        reveal(BoardState::same_as);
        reveal(BoardState::bitboards_ok);
        reveal(BoardState::lists_ok);
        reveal(BoardState::counts_ok);
    }

    /// Two consistent states with the same mailbox agree on who is in check.
    pub proof fn lemma_check_by_board(self, other: BoardState, side: Color)
        requires
            self.wf(),
            other.wf(),
            self.board@ == other.board@,
        ensures
            self.spec_is_check(side) == other.spec_is_check(side),
            self.occupancy() == other.occupancy(),
    {
        reveal(BoardState::bitboards_ok);
        assert forall|c: int| 0 <= c < 2 implies self.position_bb[c].0 == other.position_bb[c].0 by {
            assert forall|s: int| 0 <= s < 64 implies bit(self.position_bb[c].0, s) == bit(other.position_bb[c].0, s) by {
                assert(bit(self.position_bb[c].0, s) <==> (self.board@[s] is Some && self.board@[s]->Some_0.spec_color().idx()
                    == c));
                assert(bit(other.position_bb[c].0, s) <==> (other.board@[s] is Some
                    && other.board@[s]->Some_0.spec_color().idx() == c));
            }
            lemma_bits_equal(self.position_bb[c].0, other.position_bb[c].0);
        }
        assert(self.occupancy() == other.occupancy());
        assert forall|k: int, q: int| self.attacks_from(q, k, side.spec_opposite()) == other.attacks_from(
            q,
            k,
            side.spec_opposite(),
        ) by {}
        assert forall|k: int| self.is_attacked(k, side.spec_opposite()) == other.is_attacked(k, side.spec_opposite()) by {
            if self.is_attacked(k, side.spec_opposite()) {
                let q = choose|q: int| self.attacks_from(q, k, side.spec_opposite());
                assert(other.attacks_from(q, k, side.spec_opposite()));
            }
            if other.is_attacked(k, side.spec_opposite()) {
                let q = choose|q: int| other.attacks_from(q, k, side.spec_opposite());
                assert(self.attacks_from(q, k, side.spec_opposite()));
            }
        }
        if self.spec_is_check(side) {
            let k = choose|k: int|
                0 <= k < 64 && self.board@[k] == Some(crate::piece::Piece::spec_new(side, crate::piece::PieceType::King))
                    && #[trigger] self.is_attacked(k, side.spec_opposite());
            assert(other.is_attacked(k, side.spec_opposite()));
        }
        if other.spec_is_check(side) {
            let k = choose|k: int|
                0 <= k < 64 && other.board@[k] == Some(crate::piece::Piece::spec_new(side, crate::piece::PieceType::King))
                    && #[trigger] other.is_attacked(k, side.spec_opposite());
            assert(self.is_attacked(k, side.spec_opposite()));
        }
    }

    /// Whether `m`, which must fit the position, is legal: the move is made on a copy
    /// and the mover's king looked at.
    pub fn is_legal_move(&self, m: Move, pregen_attacks: &PregenAttacks, zobrist: &ZobristHasher) -> (r: bool)
        requires
            self.wf(),
            self.move_fits(m),
        ensures
            r == self.is_safe(m),
            self.is_pseudo_move(m) ==> r == self.is_legal(m),
    {
        let mut temp = self.snapshot();
        proof {
            reveal(BoardState::is_safe);
            reveal(BoardState::is_made);
            reveal(BoardState::move_fits);
            reveal(BoardState::same_as);
            temp.lemma_same_wf(*self, *zobrist);
        }
        temp.make_move(m, zobrist);
        let in_check = temp.is_check(self.side, pregen_attacks);
        proof {
            assert(self.is_made(m, temp));
            if in_check {
                assert forall|after: BoardState| #[trigger] self.is_made(m, after) && after.wf() implies after.spec_is_check(
                    self.side,
                ) by {
                    after.lemma_check_by_board(temp, self.side);
                }
            }
        }
        !in_check
    }

    /// The first of `moves` from index `from` on that can be made without leaving the
    /// mover's king attacked, if there is one.
    pub open spec fn first_safe(self, moves: Seq<Move>, from: int) -> Option<Move>
        decreases moves.len() - from,
    {
        if from < 0 || from >= moves.len() {
            None
        } else if self.is_safe(moves[from]) {
            Some(moves[from])
        } else {
            self.first_safe(moves, from + 1)
        }
    }

    /// The first pseudo-legal move of the position, in the order of generation, that is
    /// legal, if there is one.
    pub open spec fn spec_first_legal(self) -> Option<Move> {
        self.first_safe(self.spec_pseudo_moves(), 0)
    }

    /// The first pseudo-legal move of the position that is legal, if there is one.
    pub fn first_legal(&self, pregen_attacks: &PregenAttacks, zobrist: &ZobristHasher) -> (r: Option<Move>)
        requires
            self.wf(),
        ensures
            r == self.spec_first_legal(),
            r is Some <==> self.has_legal_move(),
            r is Some ==> self.is_legal(r->Some_0),
    {
        let mut moves: Vec<Move> = Vec::new();
        get_pseudo_moves(self, pregen_attacks, &mut moves);
        let mut i: usize = 0;
        while i < moves.len()
            invariant
                i <= moves@.len(),
                self.wf(),
                moves@ == self.spec_pseudo_moves(),
                self.first_safe(moves@, 0) == self.first_safe(moves@, i as int),
                forall|m: Move| moves@.contains(m) <==> self.is_pseudo_move(m),
                self.all_fit(moves@),
                forall|j: int| 0 <= j < i ==> !self.is_safe(#[trigger] moves@[j]),
            decreases moves@.len() - i,
        {
            if self.is_legal_move(moves[i], pregen_attacks, zobrist) {
                assert(moves@.contains(moves@[i as int]));
                return Some(moves[i]);
            }
            i = i + 1;
        }
        proof {
            assert forall|m: Move| !self.is_legal(m) by {
                if self.is_pseudo_move(m) {
                    assert(moves@.contains(m));
                    let j = choose|j: int| 0 <= j < moves@.len() && moves@[j] == m;
                    assert(!self.is_safe(moves@[j]));
                }
            }
        }
        None
    }

    /// Whether the side to move has a legal move.
    pub fn any_legal_move(&self, pregen_attacks: &PregenAttacks, zobrist: &ZobristHasher) -> (r: bool)
        requires
            self.wf(),
        ensures
            r == self.has_legal_move(),
    {
        self.first_legal(pregen_attacks, zobrist).is_some()
    }
}

/// The state of a game.
pub struct GameState {
    /// The current position.
    pub board_state: BoardState,
    /// The attack tables.
    pub pregen_attacks: PregenAttacks,
    /// The hasher all positions of the game are hashed with.
    pub zobrist: ZobristHasher,
    /// Results of earlier searches, by position hash.
    pub transposition_table: HashMap<u64, TTEntry>,
    /// The positions before each move made and not taken back, oldest first.
    pub history: Vec<BoardState>,
    /// The hash of the first position and of the position after each such move.
    pub zobrist_history: Vec<u64>,
    /// Time left on the clock, in milliseconds.
    pub clock_time: u64,
    /// Moves still to be made on the clock's time.
    pub moves_to_go: u32,
}

impl GameState {
    /// The position is consistent and hashed with the game's hasher, and so is all that
    /// the game has stored.
    pub open spec fn wf(self) -> bool {
        &&& self.board_state.wf()
        &&& self.board_state.hash_ok(self.zobrist)
        &&& self.stores_ok()
    }

    /// The positions to go back to are consistent and hashed with the game's hasher,
    /// there is one hash more than such positions, and every stored score is within the
    /// limit.
    #[verifier::opaque]
    pub open spec fn stores_ok(self) -> bool {
        &&& forall|i: int|
            0 <= i < self.history@.len() ==> (#[trigger] self.history@[i]).wf() && self.history@[i].hash_ok(self.zobrist)
        &&& self.zobrist_history@.len() == self.history@.len() + 1
        &&& forall|k: u64|
            self.transposition_table@.contains_key(k) ==> -SCORE_LIMIT <= (#[trigger] self.transposition_table@[k]).score
                <= SCORE_LIMIT
    }

    /// Whatever leaves the histories, the hasher and the stored scores alone leaves them
    /// in order.
    pub proof fn lemma_stores_kept(self, after: GameState)
        requires
            self.stores_ok(),
            after.history@ == self.history@,
            after.zobrist_history@ == self.zobrist_history@,
            after.zobrist == self.zobrist,
            after.transposition_table@ == self.transposition_table@,
        ensures
            after.stores_ok(),
    {
        reveal(GameState::stores_ok);
    }

    /// The number of moves to go that a clock of the given length starts with.
    pub open spec fn spec_initial_moves_to_go(time_limit: u64) -> u32 {
        if time_limit / 1000 < 60 {
            20
        } else if time_limit / 1000 < 180 {
            30
        } else if time_limit / 1000 < 600 {
            40
        } else {
            50
        }
    }

    /// Sets up a game on a position that has been read already.
    pub fn from_board(board: BoardState, zobrist: ZobristHasher, time_limit: u64) -> (r: GameState)
        requires
            board.wf(),
            board.hash_ok(zobrist),
        ensures
            r.wf(),
            r.board_state == board,
            r.zobrist == zobrist,
            r.history@.len() == 0,
            r.zobrist_history@ == seq![board.zobrist_hash],
            r.transposition_table@ == Map::<u64, TTEntry>::empty(),
            r.clock_time == time_limit,
            r.moves_to_go == Self::spec_initial_moves_to_go(time_limit),
    {
        let secs = time_limit / 1000;
        let moves_to_go: u32 = if secs < 60 {
            20
        } else if secs < 180 {
            30
        } else if secs < 600 {
            40
        } else {
            50
        };
        let initial_hash = board.get_zobrist_hash();
        let mut hashes: Vec<u64> = Vec::new();
        hashes.push(initial_hash);
        proof {
            reveal(GameState::stores_ok);
        }
        GameState {
            board_state: board,
            pregen_attacks: PregenAttacks::init(),
            zobrist,
            transposition_table: HashMap::new(),
            history: Vec::new(),
            zobrist_history: hashes,
            clock_time: time_limit,
            moves_to_go,
        }
    }

    /// Sets up a game from a record in Forsyth-Edwards Notation, or from the starting
    /// position if none is given, with `time_limit` milliseconds on the clock. Fails
    /// exactly when the record is invalid.
    pub fn try_new(fen_str: Option<&str>, time_limit: u64) -> (r: Result<GameState, String>)
        ensures
            ({
                let text = match fen_str {
                    Some(s) => s@,
                    None => crate::board_state::DEFAULT_FEN@,
                };
                &&& r is Ok <==> fen_valid(text)
                &&& r is Ok ==> r->Ok_0.wf() && fen_describes(text, r->Ok_0.board_state) && r->Ok_0.history@.len() == 0
                    && r->Ok_0.clock_time == time_limit && r->Ok_0.moves_to_go == Self::spec_initial_moves_to_go(
                    time_limit,
                )
            }),
    {
        let zobrist = ZobristHasher::new();
        match BoardState::new(fen_str, &zobrist) {
            Ok(board) => Ok(Self::from_board(board, zobrist, time_limit)),
            Err(e) => Err(e),
        }
    }

    /// Sets up a game from a valid record, or from the starting position if none is
    /// given, with `time_limit` milliseconds on the clock.
    pub fn new(fen_str: Option<&str>, time_limit: u64) -> (r: GameState)
        requires
            fen_valid(
                match fen_str {
                    Some(s) => s@,
                    None => crate::board_state::DEFAULT_FEN@,
                },
            ),
        ensures
            r.wf(),
            fen_describes(
                match fen_str {
                    Some(s) => s@,
                    None => crate::board_state::DEFAULT_FEN@,
                },
                r.board_state,
            ),
            r.history@.len() == 0,
            r.clock_time == time_limit,
            r.moves_to_go == Self::spec_initial_moves_to_go(time_limit),
    {
        let zobrist = ZobristHasher::new();
        let parsed = BoardState::new(fen_str, &zobrist);
        Self::from_board(parsed.unwrap(), zobrist, time_limit)
    }

    /// The current position.
    pub fn get_board_state(&self) -> (r: &BoardState)
        ensures
            *r == self.board_state,
    {
        &self.board_state
    }

    /// The attack tables.
    pub fn get_pregen_attacks(&self) -> (r: &PregenAttacks)
        ensures
            *r == self.pregen_attacks,
    {
        &self.pregen_attacks
    }

    /// What the transposition table holds for `key`, if anything.
    pub fn tt_lookup(&self, key: u64) -> (r: Option<&TTEntry>)
        ensures
            r is Some <==> self.transposition_table@.contains_key(key),
            r is Some ==> *r->Some_0 == self.transposition_table@[key],
            r is Some && self.wf() ==> -SCORE_LIMIT <= r->Some_0.score <= SCORE_LIMIT,
    {
        proof {
            reveal(GameState::stores_ok);
        }
        self.transposition_table.get(&key)
    }

    /// Stores `entry` for `key`, replacing what was stored for it.
    pub fn tt_insert(&mut self, key: u64, entry: TTEntry)
        ensures
            final(self).transposition_table@ == old(self).transposition_table@.insert(key, entry),
            final(self).board_state == old(self).board_state,
            final(self).pregen_attacks == old(self).pregen_attacks,
            final(self).zobrist == old(self).zobrist,
            final(self).history == old(self).history,
            final(self).zobrist_history == old(self).zobrist_history,
            final(self).clock_time == old(self).clock_time,
            final(self).moves_to_go == old(self).moves_to_go,
            old(self).wf() && -SCORE_LIMIT <= entry.score <= SCORE_LIMIT ==> final(self).wf(),
    {
        proof {
            reveal(GameState::stores_ok);
        }
        self.transposition_table.insert(key, entry);
    }

    /// Moves still to be made on the clock's time.
    pub fn get_moves_to_go(&self) -> (r: u32)
        ensures
            r == self.moves_to_go,
    {
        self.moves_to_go
    }

    /// Counts one move off the moves to go, but never below one.
    pub fn decrement_moves_to_go(&mut self)
        ensures
            final(self).moves_to_go == (if old(self).moves_to_go > 1 {
                (old(self).moves_to_go - 1) as u32
            } else {
                old(self).moves_to_go
            }),
            final(self).board_state == old(self).board_state,
            final(self).pregen_attacks == old(self).pregen_attacks,
            final(self).zobrist == old(self).zobrist,
            final(self).transposition_table == old(self).transposition_table,
            final(self).history == old(self).history,
            final(self).zobrist_history == old(self).zobrist_history,
            final(self).clock_time == old(self).clock_time,
            old(self).wf() ==> final(self).wf(),
    {
        let ghost before = *self;
        if self.moves_to_go > 1 {
            self.moves_to_go = self.moves_to_go - 1;
        }
        proof {
            if before.wf() {
                before.lemma_stores_kept(*self);
            }
        }
    }

    /// Time left on the clock, in milliseconds.
    pub fn get_clock_time(&self) -> (r: u64)
        ensures
            r == self.clock_time,
    {
        self.clock_time
    }

    /// Takes `decrement` seconds off the clock, which stops at zero.
    pub fn decrement_clock_time(&mut self, decrement: u64)
        ensures
            final(self).clock_time == (if old(self).clock_time >= 1000 * decrement {
                (old(self).clock_time - 1000 * decrement) as u64
            } else {
                0
            }),
            final(self).board_state == old(self).board_state,
            final(self).pregen_attacks == old(self).pregen_attacks,
            final(self).zobrist == old(self).zobrist,
            final(self).transposition_table == old(self).transposition_table,
            final(self).history == old(self).history,
            final(self).zobrist_history == old(self).zobrist_history,
            final(self).moves_to_go == old(self).moves_to_go,
            old(self).wf() ==> final(self).wf(),
    {
        let ghost before = *self;
        if decrement <= self.clock_time / 1000 {
            self.clock_time = self.clock_time - 1000 * decrement;
        } else {
            self.clock_time = 0;
        }
        proof {
            if before.wf() {
                before.lemma_stores_kept(*self);
            }
        }
    }

    /// Whether `after` is this game with `m` made: the position is the one that results
    /// from the move, a copy of the position before it has joined the history, the hash
    /// after it has joined the hash history, and nothing else has changed.
    #[verifier::opaque]
    pub open spec fn is_move_made(self, m: Move, after: GameState) -> bool {
        &&& self.board_state.is_made(m, after.board_state)
        &&& after.history@.len() == self.history@.len() + 1
        &&& after.history@.drop_last() == self.history@
        &&& after.history@.last().same_as(self.board_state)
        &&& after.zobrist_history@ == self.zobrist_history@.push(after.board_state.zobrist_hash)
        &&& after.pregen_attacks == self.pregen_attacks
        &&& after.zobrist == self.zobrist
        &&& after.transposition_table == self.transposition_table
        &&& after.clock_time == self.clock_time
        &&& after.moves_to_go == self.moves_to_go
    }

    /// Whether `after` is this game with its last move taken back: the position is the
    /// last of the history, which has left it, the last hash has left the hash history,
    /// and nothing else has changed.
    #[verifier::opaque]
    pub open spec fn is_move_unmade(self, after: GameState) -> bool {
        &&& after.board_state == self.history@.last()
        &&& after.history@ == self.history@.drop_last()
        &&& after.zobrist_history@ == self.zobrist_history@.drop_last()
        &&& after.pregen_attacks == self.pregen_attacks
        &&& after.zobrist == self.zobrist
        &&& after.transposition_table == self.transposition_table
        &&& after.clock_time == self.clock_time
        &&& after.moves_to_go == self.moves_to_go
    }

    /// A game in which a move has been made has a move to take back, and its position is
    /// the one that results from the move.
    pub proof fn lemma_move_made(self, m: Move, after: GameState)
        requires
            self.is_move_made(m, after),
        ensures
            after.history@.len() == self.history@.len() + 1,
            after.zobrist_history@.len() == self.zobrist_history@.len() + 1,
            self.board_state.is_made(m, after.board_state),
            after.transposition_table == self.transposition_table,
    {
        reveal(GameState::is_move_made);
    }

    /// Making a move and taking it back restores the game: the position agrees with the
    /// one before in every field, the hashes among them, and both histories are as they
    /// were.
    pub proof fn lemma_make_unmake(self, m: Move, made: GameState, after: GameState)
        requires
            self.is_move_made(m, made),
            made.is_move_unmade(after),
        ensures
            after.board_state.same_as(self.board_state),
            after.board_state.zobrist_hash == self.board_state.zobrist_hash,
            after.board_state.pawn_hash == self.board_state.pawn_hash,
            after.board_state.board == self.board_state.board,
            after.history@ == self.history@,
            after.zobrist_history@ == self.zobrist_history@,
    {
        reveal(GameState::is_move_made);
        reveal(GameState::is_move_unmade);
        reveal(BoardState::same_as);
        assert(after.zobrist_history@ =~= self.zobrist_history@);
        assert(after.history@ =~= self.history@);
    }

    /// Makes `m`, which must fit the position. The position before the move is kept for
    /// taking the move back, the hash after it for detecting repetitions.
    pub fn make_move(&mut self, m: Move)
        requires
            old(self).wf(),
            old(self).board_state.move_fits(m),
        ensures
            final(self).wf(),
            old(self).is_move_made(m, *final(self)),
    {
        let snapshot = self.board_state.snapshot();
        proof {
            reveal(GameState::stores_ok);
            reveal(GameState::is_move_made);
            snapshot.lemma_same_wf(self.board_state, self.zobrist);
        }
        let ghost before = self.history@;
        self.history.push(snapshot);
        self.board_state.make_move(m, &self.zobrist);
        let h = self.board_state.get_zobrist_hash();
        self.zobrist_history.push(h);
        proof {
            assert(self.history@.drop_last() =~= before);
            assert forall|i: int| 0 <= i < self.history@.len() implies (#[trigger] self.history@[i]).wf()
                && self.history@[i].hash_ok(self.zobrist) by {
                if i < before.len() {
                    assert(self.history@[i] == before[i]);
                }
            }
        }
    }

    /// Whether `after` is this game with the move passed to the other side and nothing
    /// else changed but the hash, which follows.
    #[verifier::opaque]
    pub open spec fn is_null_made(self, after: GameState) -> bool {
        &&& after.board_state.side == self.board_state.side.spec_opposite()
        &&& after.board_state.zobrist_hash == self.board_state.zobrist_hash ^ self.zobrist.turn
        &&& after.board_state.board == self.board_state.board
        &&& after.board_state.piece_bb == self.board_state.piece_bb
        &&& after.board_state.position_bb == self.board_state.position_bb
        &&& after.board_state.piece_lists == self.board_state.piece_lists
        &&& after.board_state.en_passant == self.board_state.en_passant
        &&& after.board_state.castling_rights == self.board_state.castling_rights
        &&& after.board_state.half_moves == self.board_state.half_moves
        &&& after.board_state.full_moves == self.board_state.full_moves
        &&& after.board_state.material == self.board_state.material
        &&& after.board_state.piece_counts == self.board_state.piece_counts
        &&& after.board_state.psqt == self.board_state.psqt
        &&& after.board_state.pawn_hash == self.board_state.pawn_hash
        &&& after.history == self.history
        &&& after.zobrist_history == self.zobrist_history
        &&& after.pregen_attacks == self.pregen_attacks
        &&& after.zobrist == self.zobrist
        &&& after.transposition_table == self.transposition_table
        &&& after.clock_time == self.clock_time
        &&& after.moves_to_go == self.moves_to_go
    }

    /// Passes the move to the other side. Neither history is touched.
    pub fn make_null_move(&mut self)
        requires
            old(self).wf(),
        ensures
            final(self).wf(),
            old(self).is_null_made(*final(self)),
    {
        let ghost before = *self;
        self.board_state.make_null_move(&self.zobrist);
        proof {
            reveal(GameState::is_null_made);
            before.lemma_stores_kept(*self);
        }
    }

    /// Takes a null move back.
    pub fn unmake_null_move(&mut self)
        requires
            old(self).wf(),
        ensures
            final(self).wf(),
            old(self).is_null_made(*final(self)),
    {
        let ghost before = *self;
        self.board_state.unmake_null_move(&self.zobrist);
        proof {
            reveal(GameState::is_null_made);
            before.lemma_stores_kept(*self);
        }
    }

    /// Takes the last move back: the position before it is restored and its hash
    /// forgotten. There must be a move to take back.
    pub fn unmake_move(&mut self)
        requires
            old(self).wf(),
            old(self).history@.len() > 0,
        ensures
            final(self).wf(),
            old(self).is_move_unmade(*final(self)),
    {
        let ghost before = self.history@;
        proof {
            reveal(GameState::stores_ok);
            reveal(GameState::is_move_unmade);
        }
        self.zobrist_history.pop();
        let prev_state = self.history.pop();
        assert(before[before.len() - 1].wf());
        self.board_state = prev_state.unwrap();
        proof {
            assert forall|i: int| 0 <= i < self.history@.len() implies (#[trigger] self.history@[i]).wf()
                && self.history@[i].hash_ok(self.zobrist) by {
                assert(self.history@[i] == before[i]);
            }
        }
    }

    /// Whether `side` is in check.
    pub fn is_check(&self, side: Color) -> (r: bool)
        requires
            self.wf(),
        ensures
            r == self.board_state.spec_is_check(side),
    {
        self.board_state.is_check(side, &self.pregen_attacks)
    }

    /// Whether the side to move is checkmated: in check, with no legal move.
    pub fn is_checkmate(&self) -> (r: bool)
        requires
            self.wf(),
        ensures
            r == self.board_state.spec_is_checkmate(),
    {
        let side = self.board_state.get_side();
        if !self.is_check(side) {
            return false;
        }
        !self.board_state.any_legal_move(&self.pregen_attacks, &self.zobrist)
    }

    /// Whether the side to move is stalemated: not in check, with no legal move.
    pub fn is_stalemate(&self) -> (r: bool)
        requires
            self.wf(),
        ensures
            r == self.board_state.spec_is_stalemate(),
    {
        let side = self.board_state.get_side();
        if self.is_check(side) {
            return false;
        }
        !self.board_state.any_legal_move(&self.pregen_attacks, &self.zobrist)
    }

    /// How often the hash of the current position occurs in the hash history.
    pub open spec fn repetitions(self) -> int {
        occurrences(self.zobrist_history@, self.board_state.zobrist_hash, self.zobrist_history@.len() as int)
    }

    /// Whether the current position has occurred at least three times.
    pub fn is_repetition_draw(&self) -> (r: bool)
        ensures
            r == (self.repetitions() >= 3),
    {
        let current = self.board_state.get_zobrist_hash();
        let mut count: usize = 0;
        let mut i: usize = 0;
        while i < self.zobrist_history.len()
            invariant
                i <= self.zobrist_history@.len(),
                count == occurrences(self.zobrist_history@, current, i as int),
                count <= i,
            decreases self.zobrist_history@.len() - i,
        {
            if self.zobrist_history[i] == current {
                count = count + 1;
            }
            i = i + 1;
        }
        count >= 3
    }

    /// The half-move clock of the current position.
    pub fn half_move_clock(&self) -> (r: u8)
        ensures
            r == self.board_state.half_moves,
    {
        self.board_state.get_half_moves()
    }

    /// How the game stands: the first that holds of checkmate, stalemate, threefold
    /// repetition and the fifty-move rule, in this order.
    pub open spec fn spec_end_condition(self) -> GameEnd {
        if self.board_state.spec_is_checkmate() {
            GameEnd::Checkmate
        } else if self.board_state.spec_is_stalemate() {
            GameEnd::Stalemate
        } else if self.repetitions() >= 3 {
            GameEnd::Repetition
        } else if self.board_state.half_moves >= 100 {
            GameEnd::FiftyMoves
        } else {
            GameEnd::Ongoing
        }
    }

    /// Tells how the game stands after a move.
    pub fn end_condition(&self) -> (r: GameEnd)
        requires
            self.wf(),
        ensures
            r == self.spec_end_condition(),
    {
        if self.is_checkmate() {
            GameEnd::Checkmate
        } else if self.is_stalemate() {
            GameEnd::Stalemate
        } else if self.is_repetition_draw() {
            GameEnd::Repetition
        } else if self.half_move_clock() >= 100 {
            GameEnd::FiftyMoves
        } else {
            GameEnd::Ongoing
        }
    }

    /// Whether `c_move` may be played: it is a legal move of the position.
    pub fn is_valid(&self, c_move: Move) -> (r: bool)
        requires
            self.wf(),
        ensures
            r == self.board_state.is_legal(c_move),
    {
        let mut pseudo_moves: Vec<Move> = Vec::new();
        get_pseudo_moves(&self.board_state, &self.pregen_attacks, &mut pseudo_moves);
        let mut i: usize = 0;
        while i < pseudo_moves.len()
            invariant
                i <= pseudo_moves@.len(),
                self.wf(),
                forall|m: Move| pseudo_moves@.contains(m) <==> self.board_state.is_pseudo_move(m),
                self.board_state.all_fit(pseudo_moves@),
                forall|j: int| 0 <= j < i ==> pseudo_moves@[j] != c_move,
            decreases pseudo_moves@.len() - i,
        {
            if pseudo_moves[i].0 == c_move.0 {
                assert(pseudo_moves@[i as int] == c_move);
                assert(pseudo_moves@.contains(c_move));
                return self.board_state.is_legal_move(c_move, &self.pregen_attacks, &self.zobrist);
            }
            i = i + 1;
        }
        proof {
            if self.board_state.is_pseudo_move(c_move) {
                assert(pseudo_moves@.contains(c_move));
            }
        }
        false
    }
}

} // verus!
