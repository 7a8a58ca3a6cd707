//! The search: iterative deepening over a negamax with alpha-beta pruning, a
//! transposition table, null-move pruning, late-move reduction and a quiescence search
//! at the leaves, all within a time budget.

use crate::board_state::BoardState;
use crate::game::{EntryType, GameState, TTEntry, SCORE_LIMIT};
use crate::move_encode::Move;
use crate::pseudo_move_gen::get_pseudo_moves;
use crate::zobrist::lemma_xor;
use std::time::{Duration, Instant};
use vstd::prelude::*;

verus! {

/// Least depth at which a null move is tried.
pub const NULL_MOVE_DEPTH: u8 = 3;

/// By how much the search after a null move is shallower.
pub const NULL_MOVE_REDUCTION: u8 = 2;

/// A null move is tried only with more pieces than this on the board.
pub const NULL_MOVE_PIECE_COUNT: u8 = 8;

/// Half the width of the first aspiration window.
pub const ASPIRATION_WINDOW: i32 = 50;

/// The widest an aspiration window grows.
pub const ASPIRATION_LIMIT: i32 = 1_000_000;

/// Margin of the futility test in the quiescence search.
pub const FUTILITY_MARGIN: i32 = 150;

/// Least depth at which late moves are searched shallower.
pub const LMR_MIN_DEPTH: u8 = 3;

/// Number of moves searched at full depth before late moves are searched shallower.
pub const LMR_MIN_MOVE: usize = 4;

/// Number of plies the quiescence search follows captures.
pub const QUIESCENCE_DEPTH: u8 = 6;

/// Score of a mate at the root. A mate `d` plies away scores `MATE_SCORE - d`.
pub const MATE_SCORE: i32 = 100_000;

/// Score of a drawn position.
pub const DRAW_SCORE: i32 = 0;

/// Greatest depth of iterative deepening.
pub const MAX_PLY: u8 = 64;

/// Margin of the razoring test.
pub const RAZOR_MARGIN: i32 = 300;

/// Margin of the delta pruning test.
pub const DELTA_MARGIN: i32 = 975;

/// Least time a search takes, in milliseconds.
pub const MIN_SEARCH_TIME: u64 = 100;

/// Most nodes a search visits.
pub const MAX_SEARCH_NODES: u64 = 1_000_000;

/// Makes `std::time::Instant` known to the verifier as a type of which nothing is
/// known.
#[verifier::external_type_specification]
#[verifier::external_body]
pub struct ExInstant(std::time::Instant);

/// Reads the clock (`std::time::Instant::now`). Nothing is claimed of the instant read.
#[verifier::external_body]
fn instant_now() -> (r: Instant) {
    Instant::now()
}

/// The time gone by since `start` (`std::time::Instant::elapsed`). Nothing is claimed of
/// the time read. Where the clock has gone back the standard library now returns zero;
/// it does not promise to do so for ever.
#[verifier::external_body]
fn instant_elapsed(start: &Instant) -> (r: Duration) {
    start.elapsed()
}

/// A duration in whole milliseconds (`std::time::Duration::as_millis`). Nothing is
/// claimed of the number.
#[verifier::external_body]
fn duration_millis(d: &Duration) -> (r: u128) {
    d.as_millis()
}

/// The time budget of one search, in milliseconds.
#[derive(Clone, Copy, Debug)]
pub struct TimeManagement {
    /// The search stops at once when this much time has gone by.
    pub max_time: u64,
    /// The search stops when more than this much time has gone by.
    pub optimal_time: u64,
    /// The search does not stop for time before this much time has gone by.
    pub min_time: u64,
    /// The search stops when it has visited this many nodes.
    pub max_nodes: u64,
}

/// The sum of two times, or the largest time there is if the sum is beyond it.
pub open spec fn capped_sum(a: u64, b: u64) -> u64 {
    if a + b > u64::MAX {
        u64::MAX
    } else {
        (a + b) as u64
    }
}

impl TimeManagement {
    /// The target time for one move: the time left shared among the moves to go, or among
    /// twice as many while more than five are to go, plus the increment.
    pub open spec fn spec_optimal(time_left: u64, increment: u64, moves_to_go: u32) -> u64 {
        let n: int = if moves_to_go < 1 { 1 } else { moves_to_go as int };
        let share = if n <= 5 { time_left as int / n } else { time_left as int / (2 * n) };
        capped_sum(share as u64, increment)
    }

    /// The time at which a search stops at once: twice the target time, but never more
    /// than the time left plus the increment.
    pub open spec fn spec_max(time_left: u64, increment: u64, moves_to_go: u32) -> u64 {
        let optimal = Self::spec_optimal(time_left, increment, moves_to_go);
        let twice = capped_sum(optimal, optimal);
        let given = capped_sum(time_left, increment);
        if twice < given {
            twice
        } else {
            given
        }
    }

    /// Plans the time for one search. The search never takes more time than it was
    /// given: the time left plus the increment.
    pub fn new(time_left: u64, increment: u64, moves_to_go: u32) -> (r: TimeManagement)
        ensures
            r.optimal_time == Self::spec_optimal(time_left, increment, moves_to_go),
            r.min_time == MIN_SEARCH_TIME,
            r.max_time == Self::spec_max(time_left, increment, moves_to_go),
            r.optimal_time <= r.max_time,
            r.max_time <= time_left + increment,
            r.max_nodes == MAX_SEARCH_NODES,
    {
        let n: u64 = if moves_to_go < 1 { 1 } else { moves_to_go as u64 };
        let share = if n <= 5 { time_left / n } else { time_left / (2 * n) };
        let optimal_time = share.saturating_add(increment);
        let twice = optimal_time.saturating_add(optimal_time);
        let given = time_left.saturating_add(increment);
        TimeManagement {
            max_time: if twice < given { twice } else { given },
            optimal_time,
            min_time: MIN_SEARCH_TIME,
            max_nodes: MAX_SEARCH_NODES,
        }
    }

    /// Whether a search that has run for `elapsed` milliseconds and visited `nodes`
    /// nodes is to stop.
    pub open spec fn spec_should_stop(self, elapsed: u64, nodes: u64) -> bool {
        if elapsed >= self.max_time || nodes >= self.max_nodes {
            true
        } else if elapsed < self.min_time {
            false
        } else {
            elapsed > self.optimal_time
        }
    }

    /// Decides whether a search is to stop.
    pub fn should_stop(&self, elapsed: u64, nodes: u64) -> (r: bool)
        ensures
            r == self.spec_should_stop(elapsed, nodes),
    {
        if elapsed >= self.max_time {
            return true;
        }
        if nodes >= self.max_nodes {
            return true;
        }
        if elapsed < self.min_time {
            return false;
        }
        elapsed > self.optimal_time
    }
}

/// What a search keeps track of.
pub struct SearchInfo {
    /// When the search began.
    pub start_time: Instant,
    /// Nodes visited so far.
    pub nodes: u64,
    /// The best move found at the root.
    pub best_move: Option<Move>,
    /// The score of the best move.
    pub best_score: i32,
    /// Depth of the iteration in progress.
    pub depth: u8,
    /// The principal variation from the root.
    pub pv: Vec<Move>,
    /// The greatest ply reached.
    pub selective_depth: u8,
    /// The time budget.
    pub time_management: TimeManagement,
    /// Whether the search has been told to stop.
    pub stop: bool,
}

impl SearchInfo {
    /// Starts the clock of a search with `time_limit` milliseconds left for
    /// `moves_to_go` moves.
    pub fn new(time_limit: u64, moves_to_go: u32) -> (r: SearchInfo)
        ensures
            r.nodes == 0,
            r.best_move is None,
            r.depth == 0,
            r.selective_depth == 0,
            r.pv@.len() == 0,
            !r.stop,
            r.best_score == -SCORE_LIMIT,
            r.time_management.optimal_time == TimeManagement::spec_optimal(time_limit, 0, moves_to_go),
            r.time_management.min_time == MIN_SEARCH_TIME,
            r.time_management.max_time == TimeManagement::spec_max(time_limit, 0, moves_to_go),
            r.time_management.max_time <= time_limit,
            r.time_management.max_nodes == MAX_SEARCH_NODES,
    {
        SearchInfo {
            start_time: instant_now(),
            nodes: 0,
            best_move: None,
            best_score: -SCORE_LIMIT,
            depth: 0,
            pv: Vec::new(),
            selective_depth: 0,
            time_management: TimeManagement::new(time_limit, 0, moves_to_go),
            stop: false,
        }
    }

    /// Milliseconds since the search began.
    pub fn time_elapsed(&self) -> (r: u64) {
        let d = instant_elapsed(&self.start_time);
        let ms = duration_millis(&d);
        capped_millis(ms)
    }

    /// Whether the search is to stop now: what the time budget says for the time that
    /// has gone by. It is to stop, whatever the clock says, once the node budget is
    /// spent, and at once if it was given no time.
    pub fn should_stop(&self) -> (r: bool)
        ensures
            exists|elapsed: u64| r == #[trigger] self.time_management.spec_should_stop(elapsed, self.nodes),
            self.nodes >= self.time_management.max_nodes ==> r,
            self.time_management.max_time == 0 ==> r,
    {
        let elapsed = self.time_elapsed();
        let r = self.time_management.should_stop(elapsed, self.nodes);
        assert(r == self.time_management.spec_should_stop(elapsed, self.nodes));
        r
    }

    /// Notes that the search has reached ply `depth`.
    pub fn update_selective_depth(&mut self, depth: u8)
        ensures
            final(self).selective_depth == (if old(self).selective_depth >= depth {
                old(self).selective_depth
            } else {
                depth
            }),
            final(self).nodes == old(self).nodes,
            final(self).best_move == old(self).best_move,
            final(self).best_score == old(self).best_score,
            final(self).depth == old(self).depth,
            final(self).pv == old(self).pv,
            final(self).time_management == old(self).time_management,
            final(self).stop == old(self).stop,
            final(self).start_time == old(self).start_time,
    {
        if depth > self.selective_depth {
            self.selective_depth = depth;
        }
    }
}

/// A count of milliseconds as the search keeps it: the count itself, or the largest
/// count there is if it is beyond that.
pub open spec fn spec_capped_millis(ms: u128) -> u64 {
    if ms > u64::MAX {
        u64::MAX
    } else {
        ms as u64
    }
}

/// Brings a count of milliseconds into the range the search keeps time in.
pub fn capped_millis(ms: u128) -> (r: u64)
    ensures
        r == spec_capped_millis(ms),
{
    if ms > 0xFFFF_FFFF_FFFF_FFFF {
        u64::MAX
    } else {
        ms as u64
    }
}

/// How often `m` occurs among the first `n` moves of a list.
pub open spec fn move_count(moves: Seq<Move>, m: Move, n: int) -> int
    decreases n,
{
    if n <= 0 {
        0
    } else {
        move_count(moves, m, n - 1) + (if moves[n - 1] == m { 1int } else { 0 })
    }
}

/// Whether one list holds the moves of the other, each as often: the lists are
/// permutations of each other.
pub open spec fn same_moves(a: Seq<Move>, b: Seq<Move>) -> bool {
    &&& a.len() == b.len()
    &&& forall|m: Move| move_count(a, m, a.len() as int) == move_count(b, m, b.len() as int)
}

/// Whether the moves of a list come in descending order of score.
pub open spec fn sorted_by_score(moves: Seq<Move>) -> bool {
    forall|i: int, j: int| 0 <= i < j < moves.len() ==> moves[i].spec_score() >= moves[j].spec_score()
}

/// Changing one entry changes the count of a move by what left and what came.
pub proof fn lemma_move_count_update(moves: Seq<Move>, m: Move, i: int, v: Move, n: int)
    requires
        0 <= i < moves.len(),
        0 <= n <= moves.len(),
    ensures
        move_count(moves.update(i, v), m, n) == move_count(moves, m, n) + (if i < n && v == m { 1int } else { 0 }) - (
        if i < n && moves[i] == m { 1int } else { 0 }),
    decreases n,
{
    if n > 0 {
        lemma_move_count_update(moves, m, i, v, n - 1);
    }
}

/// A move is counted in a list exactly when it occurs in it.
pub proof fn lemma_move_count_member(moves: Seq<Move>, m: Move, n: int)
    requires
        0 <= n <= moves.len(),
    ensures
        0 <= move_count(moves, m, n),
        move_count(moves, m, n) > 0 <==> exists|i: int| 0 <= i < n && moves[i] == m,
    decreases n,
{
    if n > 0 {
        lemma_move_count_member(moves, m, n - 1);
        if move_count(moves, m, n - 1) > 0 {
            let i = choose|i: int| 0 <= i < n - 1 && moves[i] == m;
            assert(0 <= i < n && moves[i] == m);
        }
        if exists|i: int| 0 <= i < n && moves[i] == m {
            let i = choose|i: int| 0 <= i < n && moves[i] == m;
            if i < n - 1 {
                assert(0 <= i < n - 1 && moves[i] == m);
            }
        }
    }
}

/// Whether `m` is one of the moves of a list.
pub open spec fn occurs_in(moves: Seq<Move>, m: Move) -> bool {
    exists|j: int| 0 <= j < moves.len() && moves[j] == m
}

/// Every move of a permutation of a list occurs in the list.
pub proof fn lemma_same_moves_members(a: Seq<Move>, b: Seq<Move>)
    requires
        same_moves(a, b),
    ensures
        forall|i: int| 0 <= i < a.len() ==> occurs_in(b, #[trigger] a[i]),
{
    assert forall|i: int| 0 <= i < a.len() implies occurs_in(b, #[trigger] a[i]) by {
        let m = a[i];
        lemma_move_count_member(a, m, a.len() as int);
        lemma_move_count_member(b, m, b.len() as int);
        assert(move_count(a, m, a.len() as int) == move_count(b, m, b.len() as int));
        assert(0 <= i < a.len() && a[i] == m);
    }
}

/// Orders moves by descending score. The result holds the same moves, each as often as
/// before. All moves must be in canonical form.
pub fn order_moves(moves: &mut Vec<Move>)
    requires
        forall|i: int| 0 <= i < old(moves)@.len() ==> (#[trigger] old(moves)@[i]).wf(),
    ensures
        same_moves(final(moves)@, old(moves)@),
        sorted_by_score(final(moves)@),
{
    let n = moves.len();
    let ghost given = moves@;
    let mut scores: Vec<i32> = Vec::new();
    let mut k: usize = 0;
    while k < n
        invariant
            k <= n,
            n == moves@.len(),
            moves@ == given,
            forall|i: int| 0 <= i < moves@.len() ==> (#[trigger] moves@[i]).wf(),
            scores@.len() == k,
            forall|i: int| 0 <= i < k ==> scores@[i] == moves@[i].spec_score(),
        decreases n - k,
    {
        scores.push(moves[k].get_score());
        k = k + 1;
    }
    let mut i: usize = 0;
    while i < n
        invariant
            i <= n,
            n == moves@.len(),
            scores@.len() == n,
            forall|a: int| 0 <= a < n ==> scores@[a] == moves@[a].spec_score(),
            same_moves(moves@, given),
            forall|a: int, b: int| 0 <= a < b < i ==> scores@[a] >= scores@[b],
            forall|a: int, b: int| 0 <= a < i && i <= b < n ==> scores@[a] >= scores@[b],
        decreases n - i,
    {
        let mut best: usize = i;
        let mut j: usize = i + 1;
        while j < n
            invariant
                i <= best < n,
                i < j <= n,
                scores@.len() == n,
                forall|a: int| i <= a < j ==> scores@[best as int] >= scores@[a],
            decreases n - j,
        {
            if scores[j] > scores[best] {
                best = j;
            }
            j = j + 1;
        }
        if best != i {
            let ghost before = moves@;
            let a = moves[i];
            let b = moves[best];
            moves.set(i, b);
            moves.set(best, a);
            let x = scores[i];
            let y = scores[best];
            scores.set(i, y);
            scores.set(best, x);
            proof {
                assert forall|m: Move| move_count(moves@, m, n as int) == move_count(before, m, n as int) by {
                    lemma_move_count_update(before, m, i as int, b, n as int);
                    lemma_move_count_update(before.update(i as int, b), m, best as int, a, n as int);
                }
            }
        }
        i = i + 1;
    }
    proof {
        assert forall|a: int, b: int| 0 <= a < b < moves@.len() implies moves@[a].spec_score() >= moves@[b].spec_score() by {
            assert(scores@[a] >= scores@[b]);
        }
    }
}

/// The captures among the first `n` moves of a list, in order.
pub open spec fn captures_of(moves: Seq<Move>, n: int) -> Seq<Move>
    decreases n,
{
    if n <= 0 {
        Seq::empty()
    } else if moves[n - 1].spec_is_capture() {
        captures_of(moves, n - 1).push(moves[n - 1])
    } else {
        captures_of(moves, n - 1)
    }
}

/// The captures of a list of moves, in order.
pub fn keep_captures(moves: &Vec<Move>) -> (r: Vec<Move>)
    ensures
        r@ == captures_of(moves@, moves@.len() as int),
        forall|i: int| 0 <= i < r@.len() ==> occurs_in(moves@, #[trigger] r@[i]),
        forall|i: int| 0 <= i < r@.len() ==> (#[trigger] r@[i]).spec_is_capture(),
{
    let mut out: Vec<Move> = Vec::new();
    let mut i: usize = 0;
    while i < moves.len()
        invariant
            i <= moves@.len(),
            out@ == captures_of(moves@, i as int),
            forall|a: int| 0 <= a < out@.len() ==> occurs_in(moves@, #[trigger] out@[a]),
            forall|a: int| 0 <= a < out@.len() ==> (#[trigger] out@[a]).spec_is_capture(),
        decreases moves@.len() - i,
    {
        if moves[i].is_capture() {
            let ghost before = out@;
            out.push(moves[i]);
            proof {
                assert forall|a: int| 0 <= a < out@.len() implies occurs_in(moves@, #[trigger] out@[a]) by {
                    if a < before.len() {
                        assert(out@[a] == before[a]);
                    } else {
                        assert(moves@[i as int] == out@[a]);
                    }
                }
            }
        }
        i = i + 1;
    }
    out
}

impl BoardState {
    /// A move that is legal in one state is legal in every state that agrees with it in
    /// all fields.
    pub proof fn lemma_legal_same(self, other: BoardState, m: Move)
        requires
            self.same_as(other),
            self.is_legal(m),
        ensures
            other.is_legal(m),
    {
        self.lemma_pseudo_same(other, m);
        reveal(BoardState::is_safe);
        reveal(BoardState::is_made);
        reveal(BoardState::move_fits);
        reveal(BoardState::same_as);
        let after = choose|after: BoardState| #[trigger] self.is_made(m, after) && after.wf() && !after.spec_is_check(self.side);
        assert(other.is_made(m, after));
    }

    /// A move that fits one state fits every state that agrees with it in all fields.
    pub proof fn lemma_fits_same(self, other: BoardState, moves: Seq<Move>)
        requires
            self.same_as(other),
            self.all_fit(moves),
        ensures
            other.all_fit(moves),
    {
        reveal(BoardState::move_fits);
        reveal(BoardState::same_as);
        assert forall|i: int| 0 <= i < moves.len() implies other.move_fits(#[trigger] moves[i]) by {
            assert(self.move_fits(moves[i]));
        }
    }

    /// Whether `line` can be played from this position move by move: each move is legal
    /// in the position that the moves before it lead to.
    pub open spec fn is_line(self, line: Seq<Move>) -> bool
        decreases line.len(),
    {
        line.len() > 0 ==> {
            &&& self.is_legal(line[0])
            &&& exists|after: BoardState| #[trigger]
                self.is_made(line[0], after) && after.wf() && after.is_line(line.drop_first())
        }
    }

    /// What a move leads to from one state it leads to from every state that agrees with
    /// it in all fields.
    pub proof fn lemma_made_same(self, other: BoardState, m: Move, after: BoardState)
        requires
            self.same_as(other),
            self.is_made(m, after),
        ensures
            other.is_made(m, after),
    {
        reveal(BoardState::is_made);
        reveal(BoardState::same_as);
    }

    /// A move that leads to one state leads to every state that agrees with that state in
    /// all fields.
    pub proof fn lemma_made_to_same(self, m: Move, after: BoardState, other: BoardState)
        requires
            self.is_made(m, after),
            after.same_as(other),
        ensures
            self.is_made(m, other),
    {
        reveal(BoardState::is_made);
        reveal(BoardState::same_as);
    }

    /// Whether `m` is a legal capture and `after` a position it leads to.
    pub open spec fn captures_to(self, m: Move, after: BoardState) -> bool {
        self.is_legal(m) && m.spec_is_capture() && self.is_made(m, after) && after.wf()
    }

    /// Whether `m` is a legal move and `after` a position it leads to.
    pub open spec fn leads_to(self, m: Move, after: BoardState) -> bool {
        self.is_legal(m) && self.is_made(m, after) && after.wf()
    }

    /// A line of play from one state is a line of play from every state that agrees with
    /// it in all fields.
    pub proof fn lemma_line_same(self, other: BoardState, line: Seq<Move>)
        requires
            self.same_as(other),
            self.is_line(line),
        ensures
            other.is_line(line),
    {
        if line.len() > 0 {
            self.lemma_legal_same(other, line[0]);
            let after = choose|after: BoardState| #[trigger]
                self.is_made(line[0], after) && after.wf() && after.is_line(line.drop_first());
            assert(other.is_made(line[0], after)) by {
                reveal(BoardState::is_made);
                reveal(BoardState::same_as);
            }
        }
    }

    /// A legal move followed by a line of play from the position it leads to is a line of
    /// play.
    pub proof fn lemma_line_extend(self, m: Move, after: BoardState, rest: Seq<Move>)
        requires
            self.is_legal(m),
            self.is_made(m, after),
            after.wf(),
            after.is_line(rest),
        ensures
            self.is_line(seq![m] + rest),
    {
        let line = seq![m] + rest;
        assert(line[0] == m);
        assert(line.drop_first() =~= rest);
    }

    /// A pseudo-legal move whose making leaves the mover's king safe is legal.
    pub proof fn lemma_legal_witness(self, m: Move, after: BoardState)
        requires
            self.is_pseudo_move(m),
            self.move_fits(m),
            self.is_made(m, after),
            after.wf(),
            !after.spec_is_check(self.side),
        ensures
            self.is_legal(m),
    {
        reveal(BoardState::is_safe);
    }
}

impl GameState {
    /// Whether this state is `before` again after moves were made and taken back: the
    /// position agrees in every field, both histories are the same, and so is all the
    /// rest but the transposition table.
    #[verifier::opaque]
    pub open spec fn restored(self, before: GameState) -> bool {
        &&& self.board_state.same_as(before.board_state)
        &&& self.history@ == before.history@
        &&& self.zobrist_history@ == before.zobrist_history@
        &&& self.pregen_attacks == before.pregen_attacks
        &&& self.zobrist == before.zobrist
        &&& self.clock_time == before.clock_time
        &&& self.moves_to_go == before.moves_to_go
    }

    /// A move made on a restored game and taken back, with whatever restores the game in
    /// between, leaves the game restored.
    pub proof fn lemma_unmade(self, g0: GameState, m: Move, g1: GameState, g2: GameState, g3: GameState)
        requires
            g0.restored(self),
            g0.is_move_made(m, g1),
            g2.restored(g1),
            g2.is_move_unmade(g3),
        ensures
            g3.restored(self),
            g2.history@.len() > 0,
            g3.transposition_table == g2.transposition_table,
    {
        reveal(GameState::restored);
        reveal(GameState::is_move_made);
        reveal(GameState::is_move_unmade);
        reveal(BoardState::same_as);
        assert(g3.zobrist_history@ =~= self.zobrist_history@);
        assert(g3.history@ =~= self.history@);
    }

    /// A game restored to one in which a move has been made has a move to take back.
    pub proof fn lemma_can_unmake(self, g0: GameState, m: Move, g1: GameState)
        requires
            g0.is_move_made(m, g1),
            self.restored(g1),
        ensures
            self.history@.len() > 0,
    {
        reveal(GameState::restored);
        reveal(GameState::is_move_made);
    }

    /// A null move made on a restored game and taken back, with whatever restores the
    /// game in between, leaves the game restored.
    pub proof fn lemma_null_unmade(self, g0: GameState, g1: GameState, g2: GameState, g3: GameState)
        requires
            g0.restored(self),
            g0.is_null_made(g1),
            g2.restored(g1),
            g2.is_null_made(g3),
        ensures
            g3.restored(self),
    {
        reveal(GameState::restored);
        reveal(GameState::is_null_made);
        reveal(BoardState::same_as);
        lemma_xor(g0.board_state.zobrist_hash, g0.zobrist.turn, 0);
    }

    /// A game is restored to itself.
    pub proof fn lemma_restored_self(self)
        ensures
            self.restored(self),
    {
        reveal(GameState::restored);
        reveal(BoardState::same_as);
    }

    /// What a restored game shares with the game it was: the side to move, the lengths
    /// of the histories, the moves that fit and the moves that are legal.
    pub proof fn lemma_restored_facts(self, before: GameState, moves: Seq<Move>)
        requires
            self.restored(before),
        ensures
            self.board_state.side == before.board_state.side,
            self.board_state.same_as(before.board_state),
            before.board_state.same_as(self.board_state),
            self.history@ == before.history@,
            self.zobrist_history@ == before.zobrist_history@,
            self.clock_time == before.clock_time,
            self.moves_to_go == before.moves_to_go,
            self.pregen_attacks == before.pregen_attacks,
            self.zobrist == before.zobrist,
            before.board_state.all_fit(moves) ==> self.board_state.all_fit(moves),
            self.board_state.all_fit(moves) ==> before.board_state.all_fit(moves),
            forall|m: Move| self.board_state.is_legal(m) ==> before.board_state.is_legal(m),
    {
        reveal(GameState::restored);
        self.board_state.lemma_same_wf(before.board_state, self.zobrist);
        if before.board_state.all_fit(moves) {
            before.board_state.lemma_fits_same(self.board_state, moves);
        }
        if self.board_state.all_fit(moves) {
            self.board_state.lemma_fits_same(before.board_state, moves);
        }
        assert forall|m: Move| self.board_state.is_legal(m) implies before.board_state.is_legal(m) by {
            self.board_state.lemma_legal_same(before.board_state, m);
        }
    }

    /// A game restored to a game that was itself restored is restored to the first.
    pub proof fn lemma_restored_trans(self, middle: GameState, before: GameState)
        requires
            self.restored(middle),
            middle.restored(before),
        ensures
            self.restored(before),
    {
        reveal(GameState::restored);
        reveal(BoardState::same_as);
    }
}

/// The negation of a window bound, kept within the score limit.
fn negate(score: i32) -> (r: i32)
    requires
        -SCORE_LIMIT <= score <= SCORE_LIMIT,
    ensures
        r == -score,
        -SCORE_LIMIT <= r <= SCORE_LIMIT,
{
    -score
}

/// The value of the piece a move captures, nothing for a move that does not capture.
fn captured_value(m: Move) -> (r: i32)
    requires
        m.wf(),
    ensures
        0 <= r <= 100_000,
        r == (match m.spec_capture() {
            Some(p) => p.spec_value(),
            None => 0,
        }),
{
    match m.get_capture() {
        Some(p) => p.get_value(),
        None => 0,
    }
}

/// A principal variation that starts with `m` and goes on with `rest`.
fn prepend(m: Move, rest: &Vec<Move>) -> (r: Vec<Move>)
    ensures
        r@ == seq![m] + rest@,
{
    let mut pv: Vec<Move> = Vec::new();
    pv.push(m);
    let mut i: usize = 0;
    while i < rest.len()
        invariant
            i <= rest@.len(),
            pv@ == seq![m] + rest@.subrange(0, i as int),
        decreases rest@.len() - i,
    {
        pv.push(rest[i]);
        assert(pv@ =~= seq![m] + rest@.subrange(0, i + 1));
        i = i + 1;
    }
    assert(pv@ =~= seq![m] + rest@);
    pv
}

/// Whether a search stops at the first node it enters, whatever the clock says: its
/// stop flag is set, its node budget is spent, or it was given no time at all.
pub open spec fn stops_at_once(info: SearchInfo) -> bool {
    info.stop || info.nodes >= info.time_management.max_nodes || info.time_management.max_time == 0
}

/// Whether `r` is a score the quiescence search may give a position whose static
/// evaluation is `eval` within the window from `alpha` to `beta`: `beta` if the
/// evaluation reaches it, otherwise, for a window in order, a score that is neither
/// below `alpha` nor below the evaluation nor above `beta`.
pub open spec fn quiet_score(eval: int, alpha: i32, beta: i32, r: i32) -> bool {
    if eval >= beta {
        r == beta
    } else {
        alpha <= beta ==> alpha <= r && eval <= r && r <= beta
    }
}

/// Whether `m` is a legal capture on `board` that leads to `after`, where a search
/// within the window from `a` to `b` scores `c`.
pub open spec fn capture_scored(board: BoardState, m: Move, after: BoardState, a: i32, b: i32, c: i32) -> bool {
    board.captures_to(m, after) && -SCORE_LIMIT <= c <= SCORE_LIMIT && -SCORE_LIMIT <= a <= SCORE_LIMIT && -SCORE_LIMIT
        <= b <= SCORE_LIMIT
}

/// What holds of a quiescence search of `board` at ply `qply` that was not stopped and
/// gave `r`: the score is one the search may give; at the ply limit it is the larger of
/// `alpha` and the static evaluation; and a score above both is what a legal capture
/// gives, the negation of the score of a quiescence search of the position after it,
/// or `beta` where that negation reaches `beta`.
#[verifier::opaque]
pub open spec fn quiet_searched(board: BoardState, alpha: i32, beta: i32, qply: u8, r: i32) -> bool
    decreases QUIESCENCE_DEPTH - qply,
{
    let eval = board.spec_evaluate();
    &&& quiet_score(eval, alpha, beta, r)
    &&& eval < beta && qply >= QUIESCENCE_DEPTH ==> r == (if eval > alpha { eval as i32 } else { alpha })
    &&& eval < beta && r > alpha && r > eval ==> qply < QUIESCENCE_DEPTH && exists|
        m: Move,
        after: BoardState,
        a: i32,
        b: i32,
        c: i32,
    | #[trigger]
        capture_scored(board, m, after, a, b, c) && quiet_searched(after, a, b, (qply + 1) as u8, c) && r == (if -c
            >= beta {
            beta
        } else {
            (-c) as i32
        })
}

/// A capture whose score raises the score of a quiescence search gives that search its
/// score.
pub proof fn lemma_quiet_raised(
    board: BoardState,
    alpha: i32,
    beta: i32,
    qply: u8,
    m: Move,
    after: BoardState,
    a: i32,
    b: i32,
    c: i32,
    r: i32,
)
    requires
        qply < QUIESCENCE_DEPTH,
        capture_scored(board, m, after, a, b, c),
        quiet_searched(after, a, b, (qply + 1) as u8, c),
        board.spec_evaluate() < beta,
        r == (if -c >= beta { beta } else { (-c) as i32 }),
        alpha <= beta ==> alpha <= r && board.spec_evaluate() <= r,
    ensures
        quiet_searched(board, alpha, beta, qply, r),
{
    reveal(quiet_searched);
    assert(capture_scored(board, m, after, a, b, c) && quiet_searched(after, a, b, (qply + 1) as u8, c));
}

/// A quiescence search that no capture raised gives `beta` where the static evaluation
/// reaches it, and the larger of `alpha` and the evaluation otherwise.
pub proof fn lemma_quiet_plain(board: BoardState, alpha: i32, beta: i32, qply: u8, r: i32)
    requires
        r == (if board.spec_evaluate() >= beta {
            beta
        } else if board.spec_evaluate() > alpha {
            board.spec_evaluate() as i32
        } else {
            alpha
        }),
    ensures
        quiet_searched(board, alpha, beta, qply, r),
{
    reveal(quiet_searched);
}

/// The score of a quiescence search that was not stopped is one the search may give.
pub proof fn lemma_quiet_bounds(board: BoardState, alpha: i32, beta: i32, qply: u8, r: i32)
    requires
        quiet_searched(board, alpha, beta, qply, r),
    ensures
        quiet_score(board.spec_evaluate(), alpha, beta, r),
        board.spec_evaluate() < beta && qply >= QUIESCENCE_DEPTH ==> r == (if board.spec_evaluate() > alpha {
            board.spec_evaluate() as i32
        } else {
            alpha
        }),
{
    reveal(quiet_searched);
}

/// Searches captures only, until the position is quiet or `QUIESCENCE_DEPTH` plies have
/// been followed. The game is left as it was found. A search whose stop flag is set or
/// whose node budget is spent stops at once and returns `alpha`. Unless the search is
/// stopped, a position whose static evaluation reaches `beta` scores `beta`, any other
/// position at least the larger of `alpha` and its static evaluation and at most `beta`,
/// at the ply limit exactly the larger of the two, and a score above both is the score
/// a legal capture gives. A bound of the window can be
/// any score but the least value of its type, which has no negation.
pub fn quiescence_search(game_state: &mut GameState, alpha: i32, beta: i32, qply: u8, search_info: &mut SearchInfo) -> (r:
    i32)
    requires
        old(game_state).wf(),
        -SCORE_LIMIT <= alpha <= SCORE_LIMIT,
        -SCORE_LIMIT <= beta <= SCORE_LIMIT,
        qply <= QUIESCENCE_DEPTH,
    ensures
        final(game_state).wf(),
        final(game_state).restored(*old(game_state)),
        final(game_state).transposition_table == old(game_state).transposition_table,
        -SCORE_LIMIT <= r <= SCORE_LIMIT,
        final(search_info).depth == old(search_info).depth,
        final(search_info).time_management == old(search_info).time_management,
        final(search_info).best_move == old(search_info).best_move,
        old(search_info).stop ==> final(search_info).stop,
        stops_at_once(*old(search_info)) ==> final(search_info).stop && r == alpha,
        stops_at_once(*old(search_info)) ==> *final(game_state) == *old(game_state),
        alpha <= beta ==> alpha <= r,
        !final(search_info).stop ==> quiet_searched(old(game_state).board_state, alpha, beta, qply, r),
    decreases QUIESCENCE_DEPTH - qply,
{
    let ghost entry = *game_state;
    proof {
        entry.lemma_restored_self();
    }
    let mut lower = alpha;
    if search_info.stop || search_info.should_stop() {
        search_info.stop = true;
        return alpha;
    }
    search_info.nodes = search_info.nodes + 1;
    let d = search_info.depth;
    search_info.update_selective_depth(d);

    let stand_pat = game_state.board_state.evaluate(&game_state.pregen_attacks);
    if stand_pat >= beta {
        proof {
            lemma_quiet_plain(entry.board_state, alpha, beta, qply, beta);
        }
        return beta;
    }
    if stand_pat > lower {
        lower = stand_pat;
    }
    proof {
        lemma_quiet_plain(entry.board_state, alpha, beta, qply, lower);
    }
    if qply >= QUIESCENCE_DEPTH {
        return lower;
    }
    let mut pseudo_moves: Vec<Move> = Vec::new();
    get_pseudo_moves(&game_state.board_state, &game_state.pregen_attacks, &mut pseudo_moves);
    let mut captures = keep_captures(&pseudo_moves);
    proof {
        assert forall|i: int| 0 <= i < captures@.len() implies entry.board_state.move_fits(#[trigger] captures@[i]) by {
            let j = choose|j: int| 0 <= j < pseudo_moves@.len() && pseudo_moves@[j] == captures@[i];
            assert(entry.board_state.move_fits(pseudo_moves@[j]));
        }
        entry.board_state.lemma_all_fit_wf(captures@);
    }
    let ghost unsorted = captures@;
    order_moves(&mut captures);
    proof {
        lemma_same_moves_members(captures@, unsorted);
        assert forall|i: int| 0 <= i < captures@.len() implies entry.board_state.move_fits(#[trigger] captures@[i]) by {
            let j = choose|j: int| 0 <= j < unsorted.len() && unsorted[j] == captures@[i];
            assert(entry.board_state.move_fits(unsorted[j]));
        }
        entry.board_state.lemma_all_fit_wf(captures@);
        assert forall|i: int| 0 <= i < captures@.len() implies entry.board_state.is_pseudo_move(#[trigger] captures@[i])
            && captures@[i].spec_is_capture() by {
            let j = choose|j: int| 0 <= j < unsorted.len() && unsorted[j] == captures@[i];
            assert(occurs_in(pseudo_moves@, unsorted[j]));
            let k = choose|k: int| 0 <= k < pseudo_moves@.len() && pseudo_moves@[k] == unsorted[j];
            assert(pseudo_moves@.contains(pseudo_moves@[k]));
        }
    }

    let mover = game_state.board_state.get_side();
    let mut i: usize = 0;
    let mut halted = false;
    while i < captures.len() && !halted
        invariant
            i <= captures@.len(),
            entry == *old(game_state),
            game_state.wf(),
            game_state.restored(entry),
            game_state.transposition_table == entry.transposition_table,
            mover == entry.board_state.side,
            entry.board_state.all_fit(captures@),
            forall|k: int| 0 <= k < captures@.len() ==> (#[trigger] captures@[k]).wf(),
            -SCORE_LIMIT <= lower <= SCORE_LIMIT,
            -SCORE_LIMIT <= beta <= SCORE_LIMIT,
            -30_000_000 <= stand_pat <= 30_000_000,
            qply < QUIESCENCE_DEPTH,
            search_info.depth == old(search_info).depth,
            search_info.time_management == old(search_info).time_management,
            search_info.best_move == old(search_info).best_move,
            old(search_info).stop ==> search_info.stop,
            stand_pat == entry.board_state.spec_evaluate(),
            stand_pat < beta,
            alpha <= lower,
            stand_pat <= lower,
            alpha <= beta ==> lower <= beta,
            !stops_at_once(*old(search_info)),
            forall|k: int|
                0 <= k < captures@.len() ==> entry.board_state.is_pseudo_move(#[trigger] captures@[k])
                    && captures@[k].spec_is_capture(),
            quiet_searched(entry.board_state, alpha, beta, qply, lower),
        decreases captures@.len() - i, (if halted { 0int } else { 1int }),
    {
        if search_info.should_stop() {
            search_info.stop = true;
            halted = true;
        } else {
            let m = captures[i];
            if !futile(stand_pat, captured_value(m), lower) {
                let ghost g0 = *game_state;
                proof {
                    g0.lemma_restored_facts(entry, captures@);
                    assert(g0.board_state.move_fits(captures@[i as int]));
                }
                game_state.make_move(m);
                let ghost g1 = *game_state;
                proof {
                    g0.lemma_move_made(m, g1);
                }
                if game_state.is_check(mover) {
                    game_state.unmake_move();
                    proof {
                        g1.lemma_restored_self();
                        entry.lemma_unmade(g0, m, g1, g1, *game_state);
                    }
                } else {
                    let low = negate(beta);
                    let high = negate(lower);
                    let child = quiescence_search(game_state, low, high, qply + 1, search_info);
                    let ghost g2 = *game_state;
                    proof {
                        g2.lemma_can_unmake(g0, m, g1);
                    }
                    let score = negate(child);
                    game_state.unmake_move();
                    proof {
                        entry.lemma_unmade(g0, m, g1, g2, *game_state);
                        if !search_info.stop && (score > lower || score >= beta) {
                            entry.board_state.lemma_pseudo_same(g0.board_state, m);
                            g0.board_state.lemma_legal_witness(m, g1.board_state);
                            g0.board_state.lemma_made_same(entry.board_state, m, g1.board_state);
                            lemma_quiet_raised(
                                entry.board_state,
                                alpha,
                                beta,
                                qply,
                                m,
                                g1.board_state,
                                low,
                                high,
                                child,
                                if score >= beta { beta } else { score },
                            );
                        }
                    }
                    if search_info.stop {
                        halted = true;
                    } else if score >= beta {
                        return beta;
                    } else if score > lower {
                        lower = score;
                    }
                }
            }
            i = i + 1;
        }
    }
    lower
}

/// The score of a position in which the game is over, if it is: a mate counts against
/// the side to move, the less the further it is from the root, and a stalemate, a
/// threefold repetition and a hundred plies without pawn move or capture are draws.
pub open spec fn spec_terminal(game: GameState, ply: u8) -> Option<i32> {
    if game.board_state.spec_is_checkmate() {
        Some((ply - MATE_SCORE) as i32)
    } else if game.board_state.spec_is_stalemate() || game.repetitions() >= 3 || game.board_state.half_moves >= 100 {
        Some(DRAW_SCORE)
    } else {
        None
    }
}

/// Scores a position in which the game is over.
pub fn terminal_score(game_state: &GameState, current_ply: u8) -> (r: Option<i32>)
    requires
        game_state.wf(),
    ensures
        r == spec_terminal(*game_state, current_ply),
        r is Some ==> -SCORE_LIMIT <= r->Some_0 <= SCORE_LIMIT,
{
    if game_state.is_checkmate() {
        return Some(-MATE_SCORE + current_ply as i32);
    }
    if game_state.is_stalemate() {
        return Some(DRAW_SCORE);
    }
    if game_state.is_repetition_draw() {
        return Some(DRAW_SCORE);
    }
    if game_state.half_move_clock() >= 100 {
        return Some(DRAW_SCORE);
    }
    None
}

/// What the transposition table says of a node.
pub struct Probe {
    /// A score that settles the node, if the table holds one.
    pub cutoff: Option<i32>,
    /// The lower bound of the window after the table has been consulted.
    pub alpha: i32,
    /// The upper bound of the window after the table has been consulted.
    pub beta: i32,
}

/// What an entry that is deep enough does to a node's window: an exact score settles the
/// node, a lower bound raises `alpha`, an upper bound lowers `beta`, and the stored score
/// settles the node if the window closes.
pub open spec fn spec_apply_entry(entry: TTEntry, depth: u8, alpha: i32, beta: i32) -> Probe {
    if entry.depth < depth {
        Probe { cutoff: None, alpha, beta }
    } else if entry.entry_type == EntryType::Exact {
        Probe { cutoff: Some(entry.score), alpha, beta }
    } else {
        let a = if entry.entry_type == EntryType::LowerBound && entry.score > alpha { entry.score } else { alpha };
        let b = if entry.entry_type == EntryType::UpperBound && entry.score < beta { entry.score } else { beta };
        Probe { cutoff: if a >= b { Some(entry.score) } else { None }, alpha: a, beta: b }
    }
}

/// Applies a table entry to a node's window.
pub fn apply_entry(entry: &TTEntry, depth: u8, alpha: i32, beta: i32) -> (r: Probe)
    ensures
        r == spec_apply_entry(*entry, depth, alpha, beta),
{
    if entry.depth < depth {
        return Probe { cutoff: None, alpha, beta };
    }
    let mut a = alpha;
    let mut b = beta;
    match entry.entry_type {
        EntryType::Exact => {
            return Probe { cutoff: Some(entry.score), alpha, beta };
        },
        EntryType::LowerBound => {
            if entry.score > a {
                a = entry.score;
            }
        },
        EntryType::UpperBound => {
            if entry.score < b {
                b = entry.score;
            }
        },
    }
    if a >= b {
        Probe { cutoff: Some(entry.score), alpha: a, beta: b }
    } else {
        Probe { cutoff: None, alpha: a, beta: b }
    }
}

/// The kind of bound a node's best score is, given the window the node was entered
/// with: an upper bound if it did not exceed `alpha`, a lower bound if it reached
/// `beta`, exact otherwise.
pub open spec fn spec_bound_kind(best_score: i32, alpha: i32, beta: i32) -> EntryType {
    if best_score <= alpha {
        EntryType::UpperBound
    } else if best_score >= beta {
        EntryType::LowerBound
    } else {
        EntryType::Exact
    }
}

/// Tells what kind of bound a node's best score is.
pub fn bound_kind(best_score: i32, alpha: i32, beta: i32) -> (r: EntryType)
    ensures
        r == spec_bound_kind(best_score, alpha, beta),
{
    if best_score <= alpha {
        EntryType::UpperBound
    } else if best_score >= beta {
        EntryType::LowerBound
    } else {
        EntryType::Exact
    }
}

/// What is known of a node before any move is searched.
pub enum Early {
    /// The node's score is settled.
    Score(i32),
    /// The node is to be searched within this window.
    Window { alpha: i32, beta: i32, in_check: bool },
}

/// What is known of a node before any move is searched: the score of a position in
/// which the game is over; failing that, what the transposition table says; failing
/// that, `alpha` at depth one if the side to move is not in check and its static
/// evaluation stays more than the razoring margin below `alpha`.
pub open spec fn spec_early(game: GameState, depth: u8, alpha: i32, beta: i32, ply: u8) -> Early {
    let key = game.board_state.zobrist_hash;
    let in_check = game.board_state.spec_is_check(game.board_state.side);
    let probe = if game.transposition_table@.contains_key(key) {
        spec_apply_entry(game.transposition_table@[key], depth, alpha, beta)
    } else {
        Probe { cutoff: None, alpha, beta }
    };
    if spec_terminal(game, ply) is Some {
        Early::Score(spec_terminal(game, ply)->Some_0)
    } else if probe.cutoff is Some {
        Early::Score(probe.cutoff->Some_0)
    } else if depth == 1 && !in_check && game.board_state.spec_evaluate() + RAZOR_MARGIN < probe.alpha {
        Early::Score(probe.alpha)
    } else {
        Early::Window { alpha: probe.alpha, beta: probe.beta, in_check }
    }
}

/// Finds out what is known of a node before any move is searched.
pub fn early_exit(game_state: &GameState, depth: u8, alpha: i32, beta: i32, current_ply: u8) -> (r: Early)
    requires
        game_state.wf(),
        -SCORE_LIMIT <= alpha <= SCORE_LIMIT,
        -SCORE_LIMIT <= beta <= SCORE_LIMIT,
    ensures
        r == spec_early(*game_state, depth, alpha, beta, current_ply),
        r matches Early::Score(v) ==> -SCORE_LIMIT <= v <= SCORE_LIMIT,
        r matches Early::Window { alpha: a, beta: b, in_check: c } ==> -SCORE_LIMIT <= a <= SCORE_LIMIT && -SCORE_LIMIT
            <= b <= SCORE_LIMIT,
{
    match terminal_score(game_state, current_ply) {
        Some(score) => {
            return Early::Score(score);
        },
        None => {},
    }
    let mut alpha = alpha;
    let mut beta = beta;
    let zobrist_key = game_state.board_state.get_zobrist_hash();
    match game_state.tt_lookup(zobrist_key) {
        Some(found) => {
            let probe = apply_entry(found, depth, alpha, beta);
            match probe.cutoff {
                Some(score) => {
                    return Early::Score(score);
                },
                None => {},
            }
            alpha = probe.alpha;
            beta = probe.beta;
        },
        None => {},
    }
    let side = game_state.board_state.get_side();
    let in_check = game_state.is_check(side);
    if depth == 1 && !in_check {
        let stand_pat = game_state.board_state.evaluate(&game_state.pregen_attacks);
        if stand_pat + RAZOR_MARGIN < alpha {
            return Early::Score(alpha);
        }
    }
    Early::Window { alpha, beta, in_check }
}

/// The window a null move is searched with: from the negation of `beta` to one above
/// it, where there is a score above it.
pub open spec fn spec_null_window(beta: i32) -> (i32, i32) {
    (
        (-beta) as i32,
        if -beta >= SCORE_LIMIT {
            SCORE_LIMIT
        } else {
            (-beta + 1) as i32
        },
    )
}

/// Gives the window a null move is searched with.
pub fn null_window(beta: i32) -> (r: (i32, i32))
    requires
        -SCORE_LIMIT <= beta <= SCORE_LIMIT,
    ensures
        r == spec_null_window(beta),
        -SCORE_LIMIT <= r.0 <= r.1 <= SCORE_LIMIT,
{
    let low = negate(beta);
    (low, if low >= SCORE_LIMIT { SCORE_LIMIT } else { low + 1 })
}

/// The window of no width that a move after the first is searched with: from one below
/// the negation of `alpha`, where there is a score below it, to that negation.
pub open spec fn spec_zero_window(alpha: i32) -> (i32, i32) {
    (
        if alpha >= SCORE_LIMIT {
            (-SCORE_LIMIT) as i32
        } else {
            (-alpha - 1) as i32
        },
        (-alpha) as i32,
    )
}

/// Gives the window of no width that a move after the first is searched with.
pub fn zero_window(alpha: i32) -> (r: (i32, i32))
    requires
        -SCORE_LIMIT <= alpha <= SCORE_LIMIT,
    ensures
        r == spec_zero_window(alpha),
        -SCORE_LIMIT <= r.0 <= r.1 <= SCORE_LIMIT,
{
    (if alpha >= SCORE_LIMIT { -SCORE_LIMIT } else { -(alpha + 1) }, negate(alpha))
}

/// The depth a move after the first is searched to with the window of no width: two
/// plies less than the node for a late quiet move that gives no check at a node deep
/// enough, one ply less for any other.
pub open spec fn spec_late_depth(depth: u8, moves_searched: int, capture: bool, gives_check: bool) -> u8 {
    if depth >= LMR_MIN_DEPTH && moves_searched >= LMR_MIN_MOVE && !capture && !gives_check {
        (depth - 2) as u8
    } else {
        (depth - 1) as u8
    }
}

/// Gives the depth a move after the first is searched to with the window of no width.
pub fn late_depth(depth: u8, moves_searched: usize, capture: bool, gives_check: bool) -> (r: u8)
    requires
        depth >= 1,
    ensures
        r == spec_late_depth(depth, moves_searched as int, capture, gives_check),
        r < depth,
{
    if depth >= LMR_MIN_DEPTH && moves_searched >= LMR_MIN_MOVE && !capture && !gives_check {
        depth - 2
    } else {
        depth - 1
    }
}

/// Whether a move is passed over at depth one: no move has raised the lower bound yet,
/// and what the move captures, with the margin, stays below that bound.
pub open spec fn spec_delta_pruned(depth: u8, pv_found: bool, captured: int, alpha: i32) -> bool {
    depth == 1 && !pv_found && captured + DELTA_MARGIN < alpha
}

/// Tells whether a move is passed over at depth one.
pub fn delta_pruned(depth: u8, pv_found: bool, captured: i32, alpha: i32) -> (r: bool)
    ensures
        r == spec_delta_pruned(depth, pv_found, captured as int, alpha),
{
    depth == 1 && !pv_found && (captured as i64) + (DELTA_MARGIN as i64) < alpha as i64
}

/// Whether a capture is passed over in the quiescence search: the static evaluation,
/// what the move captures and the margin together stay below the lower bound.
pub open spec fn spec_futile(stand_pat: int, captured: int, alpha: i32) -> bool {
    stand_pat + captured + FUTILITY_MARGIN < alpha
}

/// Tells whether a capture is passed over in the quiescence search.
pub fn futile(stand_pat: i32, captured: i32, alpha: i32) -> (r: bool)
    ensures
        r == spec_futile(stand_pat as int, captured as int, alpha),
{
    (stand_pat as i64) + (captured as i64) + (FUTILITY_MARGIN as i64) < alpha as i64
}

/// What a node knows once the score of one more move has come back.
#[derive(Copy, Clone, PartialEq, Eq, Debug, Structural)]
pub struct Tally {
    /// The best score of the moves searched so far.
    pub best_score: i32,
    /// The lower bound of the window.
    pub alpha: i32,
    /// Whether the move raised the lower bound and so heads the principal variation.
    pub raised: bool,
    /// Whether the lower bound has reached the upper bound, so that no further move
    /// needs to be searched.
    pub cutoff: bool,
}

/// What a node knows once a move has scored `score`: the best score is the larger of
/// the two, a score above the best so far and above `alpha` raises `alpha`, and the
/// node is cut off when `alpha` reaches `beta`.
pub open spec fn spec_tally(best_score: i32, alpha: i32, beta: i32, score: i32) -> Tally {
    let raised = score > best_score && score > alpha;
    let a = if raised { score } else { alpha };
    Tally { best_score: if score > best_score { score } else { best_score }, alpha: a, raised, cutoff: a >= beta }
}

/// Takes the score of one more move into account.
pub fn tally(best_score: i32, alpha: i32, beta: i32, score: i32) -> (r: Tally)
    ensures
        r == spec_tally(best_score, alpha, beta, score),
{
    let raised = score > best_score && score > alpha;
    let a = if raised { score } else { alpha };
    Tally { best_score: if score > best_score { score } else { best_score }, alpha: a, raised, cutoff: a >= beta }
}

/// How many plies a node that is searched to `depth` lies below the root of an iteration
/// of depth `iteration`.
pub open spec fn spec_ply(iteration: u8, depth: u8) -> u8 {
    if depth <= iteration {
        (iteration - depth) as u8
    } else {
        0
    }
}

/// Whether a null move is tried at a node: the move before was none, the node is deep
/// enough, the side to move is not in check, and enough pieces are on the board.
pub open spec fn null_move_tried(game: GameState, depth: u8, null_move: bool, in_check: bool) -> bool {
    !null_move && depth >= NULL_MOVE_DEPTH && !in_check && game.board_state.spec_num_pieces() > NULL_MOVE_PIECE_COUNT
}

/// Whether `after` holds what a node leaves in the transposition table once its moves
/// have been searched: under the hash of the position an entry with the depth of the
/// node, whose kind is the kind of bound its score is for the window from `alpha` to
/// `beta` that the node was entered with. The node's own score `score` is the score
/// stored, or the lower bound `a` that the moves were searched with if that is larger.
pub open spec fn node_stored(
    before: GameState,
    after: GameState,
    depth: u8,
    alpha: i32,
    beta: i32,
    a: i32,
    score: i32,
) -> bool {
    let key = before.board_state.zobrist_hash;
    let table = after.transposition_table@;
    &&& table.contains_key(key)
    &&& table[key].depth == depth
    &&& table[key].entry_type == spec_bound_kind(table[key].score, alpha, beta)
    &&& score == (if table[key].score > a { table[key].score } else { a })
}

/// Whether `m` is a legal move on `board` that leads to the position of `node`, a game
/// in which a search to `depth` plies within the window from `a` to `b`, `ply` plies
/// below the root, left `left`.
pub open spec fn move_scored(
    board: BoardState,
    m: Move,
    node: GameState,
    left: GameState,
    depth: u8,
    a: i32,
    b: i32,
    ply: u8,
) -> bool {
    board.leads_to(m, node.board_state) && node.wf() && -SCORE_LIMIT <= a <= SCORE_LIMIT && -SCORE_LIMIT <= b
        <= SCORE_LIMIT
}

/// What holds of a node that was searched without being stopped. A node whose score is
/// known before any move is searched gets that score and an empty line, and the
/// transposition table is left alone. At depth zero the score is that of the
/// quiescence search. Any other node either is cut off by a null move and scores the
/// upper bound of its window, or leaves its entry in the transposition table; its line
/// is empty exactly when no move scored above the lower bound of the window, and
/// otherwise the score and the line come from the first move of the line.
#[verifier::opaque]
pub open spec fn node_searched(
    before: GameState,
    after: GameState,
    depth: u8,
    alpha: i32,
    beta: i32,
    null_move: bool,
    ply: u8,
    score: i32,
    line: Seq<Move>,
) -> bool
    decreases depth,
{
    match spec_early(before, depth, alpha, beta, ply) {
        Early::Score(v) => score == v && line.len() == 0 && after.transposition_table == before.transposition_table,
        Early::Window { alpha: a, beta: b, in_check: c } => {
            &&& a <= b ==> a <= score
            &&& depth == 0 ==> quiet_searched(before.board_state, a, b, 0, score) && line.len() == 0
                && after.transposition_table == before.transposition_table
            &&& depth >= 1 ==> (null_move_tried(before, depth, null_move, c) && score == b && line.len() == 0) || (
                node_stored(before, after, depth, alpha, beta, a, score) && (score > a <==> line.len() > 0) && (line.len()
                    > 0 ==> exists|node: GameState, left: GameState, d: u8, a2: i32, b2: i32, p2: u8| #[trigger]
                    move_scored(before.board_state, line[0], node, left, d, a2, b2, p2) && d < depth && node_searched(
                        node,
                        left,
                        d,
                        a2,
                        b2,
                        false,
                        p2,
                        (-score) as i32,
                        line.drop_first(),
                    )))
        },
    }
}

/// Whether a node searched to `depth` plies has its score `score` and its line `line`
/// from the first move of the line: the move is legal, and a search of the position
/// after it to a lesser depth, not stopped, gave the negation of the score and the rest
/// of the line.
#[verifier::opaque]
pub open spec fn line_scored(board: BoardState, depth: u8, score: i32, line: Seq<Move>) -> bool {
    line.len() > 0 && exists|node: GameState, left: GameState, d: u8, a: i32, b: i32, ply: u8| #[trigger]
        move_scored(board, line[0], node, left, d, a, b, ply) && d < depth && node_searched(
            node,
            left,
            d,
            a,
            b,
            false,
            ply,
            (-score) as i32,
            line.drop_first(),
        )
}


/// A legal move after which a search gave the negation of a score and a line gives the
/// node that score and, with the move in front, that line.
pub proof fn lemma_line_scored(
    board: BoardState,
    depth: u8,
    score: i32,
    m: Move,
    rest: Seq<Move>,
    node: GameState,
    left: GameState,
    d: u8,
    a: i32,
    b: i32,
    ply: u8,
)
    requires
        move_scored(board, m, node, left, d, a, b, ply),
        d < depth,
        node_searched(node, left, d, a, b, false, ply, (-score) as i32, rest),
    ensures
        line_scored(board, depth, score, seq![m] + rest),
{
    reveal(line_scored);
    let line = seq![m] + rest;
    assert(line[0] == m);
    assert(line.drop_first() =~= rest);
    assert(move_scored(board, line[0], node, left, d, a, b, ply));
}

/// What a node that was not stopped is owed, put together from its parts.
pub proof fn lemma_node_searched(
    before: GameState,
    after: GameState,
    depth: u8,
    alpha: i32,
    beta: i32,
    null_move: bool,
    ply: u8,
    score: i32,
    line: Seq<Move>,
)
    requires
        match spec_early(before, depth, alpha, beta, ply) {
            Early::Score(v) => score == v && line.len() == 0 && after.transposition_table == before.transposition_table,
            Early::Window { alpha: a, beta: b, in_check: c } => {
                &&& a <= b ==> a <= score
                &&& depth == 0 ==> quiet_searched(before.board_state, a, b, 0, score) && line.len() == 0
                    && after.transposition_table == before.transposition_table
                &&& depth >= 1 ==> (null_move_tried(before, depth, null_move, c) && score == b && line.len() == 0) || (
                    node_stored(before, after, depth, alpha, beta, a, score) && (score > a <==> line.len() > 0) && (
                    line.len() > 0 ==> line_scored(before.board_state, depth, score, line)))
            },
        },
    ensures
        node_searched(before, after, depth, alpha, beta, null_move, ply, score, line),
{
    reveal(node_searched);
    reveal(line_scored);
}

/// What a node that was not stopped is owed, taken apart.
pub proof fn lemma_node_facts(
    before: GameState,
    after: GameState,
    depth: u8,
    alpha: i32,
    beta: i32,
    null_move: bool,
    ply: u8,
    score: i32,
    line: Seq<Move>,
)
    requires
        node_searched(before, after, depth, alpha, beta, null_move, ply, score, line),
    ensures
        match spec_early(before, depth, alpha, beta, ply) {
            Early::Score(v) => score == v && line.len() == 0 && after.transposition_table == before.transposition_table,
            Early::Window { alpha: a, beta: b, in_check: c } => {
                &&& a <= b ==> a <= score
                &&& depth == 0 ==> quiet_searched(before.board_state, a, b, 0, score) && line.len() == 0
                    && after.transposition_table == before.transposition_table
                &&& depth >= 1 ==> (null_move_tried(before, depth, null_move, c) && score == b && line.len() == 0) || (
                    node_stored(before, after, depth, alpha, beta, a, score) && (score > a <==> line.len() > 0) && (
                    line.len() > 0 ==> line_scored(before.board_state, depth, score, line)))
            },
        },
{
    reveal(node_searched);
    reveal(line_scored);
}

/// Searches the position to `depth` plies within the window from `alpha` to `beta` and
/// returns the score for the side to move with the principal variation, which is a line
/// of legal moves from the position. The game is left as it was found but for the
/// transposition table. A search whose stop flag is set or whose node budget is spent
/// stops at once, returns `alpha` and changes nothing. Only a node at the root of the
/// iteration sets the best move, and where `depth` is the depth of the iteration, only
/// to a move that is legal there: the first move of the line returned, if there is
/// one. What holds of a node that was not stopped is said by `node_searched`: among
/// other things the entry it leaves in the transposition table, and that its score is
/// the negated score of the node after the first move of its line. A bound of the
/// window can be any score but the least value of its type, which has no negation.
#[verifier::spinoff_prover]
#[verifier::rlimit(60)]
pub fn negamax(
    game_state: &mut GameState,
    depth: u8,
    alpha: i32,
    beta: i32,
    null_move: bool,
    search_info: &mut SearchInfo,
) -> (r: (i32, Vec<Move>))
    requires
        old(game_state).wf(),
        -SCORE_LIMIT <= alpha <= SCORE_LIMIT,
        -SCORE_LIMIT <= beta <= SCORE_LIMIT,
    ensures
        final(game_state).wf(),
        final(game_state).restored(*old(game_state)),
        -SCORE_LIMIT <= r.0 <= SCORE_LIMIT,
        final(search_info).depth == old(search_info).depth,
        final(search_info).time_management == old(search_info).time_management,
        final(search_info).best_move == old(search_info).best_move || (depth >= old(search_info).depth
            && final(search_info).best_move is Some && (depth == old(search_info).depth ==> old(
            game_state,
        ).board_state.is_legal(final(search_info).best_move->Some_0))),
        old(search_info).stop ==> final(search_info).stop,
        stops_at_once(*old(search_info)) ==> final(search_info).stop && r.0 == alpha && r.1@.len() == 0,
        stops_at_once(*old(search_info)) ==> *final(game_state) == *old(game_state),
        !final(search_info).stop ==> node_searched(
            *old(game_state),
            *final(game_state),
            depth,
            alpha,
            beta,
            null_move,
            spec_ply(old(search_info).depth, depth),
            r.0,
            r.1@,
        ),
        old(game_state).board_state.is_line(r.1@),
        depth == old(search_info).depth && r.1@.len() > 0 ==> final(search_info).best_move == Some(r.1@[0]),
    decreases depth,
{
    let ghost entry = *game_state;
    let ghost info0 = *search_info;
    proof {
        entry.lemma_restored_self();
    }
    if search_info.stop || search_info.should_stop() {
        search_info.stop = true;
        return (alpha, Vec::new());
    }
    search_info.nodes = search_info.nodes + 1;
    let current_ply = if depth <= search_info.depth { search_info.depth - depth } else { 0 };
    let entry_alpha = alpha;
    let entry_beta = beta;
    search_info.update_selective_depth(current_ply);

    let side = game_state.board_state.get_side();
    let (mut alpha, beta, in_check) = match early_exit(game_state, depth, alpha, beta, current_ply) {
        Early::Score(score) => {
            proof {
                lemma_node_searched(entry, entry, depth, entry_alpha, entry_beta, null_move, current_ply, score, Seq::empty());
            }
            return (score, Vec::new());
        },
        Early::Window { alpha, beta, in_check } => (alpha, beta, in_check),
    };
    let zobrist_key = game_state.board_state.get_zobrist_hash();
    let orig_alpha = alpha;
    let orig_beta = beta;
    proof {
        assert(spec_early(entry, depth, entry_alpha, entry_beta, current_ply) == (Early::Window {
            alpha: orig_alpha,
            beta: orig_beta,
            in_check,
        }));
    }

    // Null move.
    if !null_move && depth >= NULL_MOVE_DEPTH && game_state.board_state.get_num_pieces() > NULL_MOVE_PIECE_COUNT
        && !in_check {
        game_state.make_null_move();
        let ghost g1 = *game_state;
        let (low, high) = null_window(beta);
        let (score, _) = negamax(game_state, depth - 1 - NULL_MOVE_REDUCTION, low, high, true, search_info);
        let ghost g2 = *game_state;
        game_state.unmake_null_move();
        proof {
            entry.lemma_null_unmade(entry, g1, g2, *game_state);
        }
        if search_info.stop {
            return (alpha, Vec::new());
        }
        if negate(score) >= beta {
            proof {
                lemma_node_searched(
                    entry,
                    *game_state,
                    depth,
                    entry_alpha,
                    entry_beta,
                    null_move,
                    current_ply,
                    beta,
                    Seq::empty(),
                );
            }
            return (beta, Vec::new());
        }
    }

    // Leaf.
    if depth == 0 {
        let ghost g0 = *game_state;
        let score = quiescence_search(game_state, alpha, beta, 0, search_info);
        proof {
            game_state.lemma_restored_trans(g0, entry);
            if !search_info.stop {
                assert(g0 == entry);
                lemma_node_searched(
                    entry,
                    *game_state,
                    depth,
                    entry_alpha,
                    entry_beta,
                    null_move,
                    current_ply,
                    score,
                    Seq::empty(),
                );
            }
        }
        return (score, Vec::new());
    }

    let mut pseudo_moves: Vec<Move> = Vec::new();
    get_pseudo_moves(&game_state.board_state, &game_state.pregen_attacks, &mut pseudo_moves);
    let ghost unsorted = pseudo_moves@;
    proof {
        game_state.board_state.lemma_all_fit_wf(pseudo_moves@);
    }
    order_moves(&mut pseudo_moves);
    proof {
        lemma_same_moves_members(pseudo_moves@, unsorted);
        assert forall|i: int| 0 <= i < pseudo_moves@.len() implies game_state.board_state.move_fits(
            #[trigger] pseudo_moves@[i],
        ) by {
            let j = choose|j: int| 0 <= j < unsorted.len() && unsorted[j] == pseudo_moves@[i];
            assert(game_state.board_state.move_fits(unsorted[j]));
        }
        game_state.lemma_restored_facts(entry, pseudo_moves@);
        entry.board_state.lemma_all_fit_wf(pseudo_moves@);
        assert forall|k: int| 0 <= k < pseudo_moves@.len() implies entry.board_state.is_pseudo_move(
            #[trigger] pseudo_moves@[k],
        ) by {
            let j = choose|j: int| 0 <= j < unsorted.len() && unsorted[j] == pseudo_moves@[k];
            assert(unsorted.contains(unsorted[j]));
            game_state.board_state.lemma_pseudo_same(entry.board_state, pseudo_moves@[k]);
        }
    }

    let mut best_score: i32 = -SCORE_LIMIT;
    let mut best_pv: Vec<Move> = Vec::new();
    let mut moves_searched: usize = 0;
    let mut pv_found = false;
    let mut halted = false;
    let mut i: usize = 0;
    while i < pseudo_moves.len() && !halted
        invariant
            i <= pseudo_moves@.len(),
            game_state.wf(),
            game_state.restored(entry),
            side == entry.board_state.side,
            entry.board_state.all_fit(pseudo_moves@),
            forall|k: int| 0 <= k < pseudo_moves@.len() ==> (#[trigger] pseudo_moves@[k]).wf(),
            forall|k: int| 0 <= k < pseudo_moves@.len() ==> entry.board_state.is_pseudo_move(#[trigger] pseudo_moves@[k]),
            entry.board_state.is_line(best_pv@),
            -SCORE_LIMIT <= alpha <= SCORE_LIMIT,
            -SCORE_LIMIT <= beta <= SCORE_LIMIT,
            -SCORE_LIMIT <= best_score <= SCORE_LIMIT,
            moves_searched <= i,
            1 <= depth,
            current_ply == spec_ply(info0.depth, depth),
            alpha == (if best_score > orig_alpha { best_score } else { orig_alpha }),
            alpha > orig_alpha <==> best_pv@.len() > 0,
            best_pv@.len() > 0 ==> line_scored(entry.board_state, depth, alpha, best_pv@),
            depth == info0.depth && best_pv@.len() > 0 ==> search_info.best_move == Some(best_pv@[0]),
            !stops_at_once(info0),
            zobrist_key == entry.board_state.zobrist_hash,
            spec_early(entry, depth, entry_alpha, entry_beta, current_ply) == (Early::Window {
                alpha: orig_alpha,
                beta: orig_beta,
                in_check,
            }),
            search_info.depth == info0.depth,
            search_info.time_management == info0.time_management,
            search_info.best_move == info0.best_move || (depth >= info0.depth && search_info.best_move is Some && (depth
                == info0.depth ==> entry.board_state.is_legal(search_info.best_move->Some_0))),
            info0.stop ==> search_info.stop,
            orig_alpha <= alpha,
        decreases pseudo_moves@.len() - i, (if halted { 0int } else { 1int }),
    {
        if search_info.should_stop() {
            search_info.stop = true;
            halted = true;
        } else {
            let m = pseudo_moves[i];
            if !delta_pruned(depth, pv_found, captured_value(m), alpha) {
                let ghost g0 = *game_state;
                proof {
                    g0.lemma_restored_facts(entry, pseudo_moves@);
                    assert(g0.board_state.move_fits(pseudo_moves@[i as int]));
                }
                game_state.make_move(m);
                let ghost g1 = *game_state;
                proof {
                    g0.lemma_move_made(m, g1);
                }
                if game_state.is_check(side) {
                    game_state.unmake_move();
                    proof {
                        g1.lemma_restored_self();
                        entry.lemma_unmade(g0, m, g1, g1, *game_state);
                    }
                } else {
                    proof {
                        entry.board_state.lemma_pseudo_same(g0.board_state, m);
                        g0.board_state.lemma_legal_witness(m, g1.board_state);
                    }
                    let mut aborted = false;
                    let mut score: i32 = 0;
                    let mut child_pv: Vec<Move> = Vec::new();
                    let ghost mut node = g1;
                    let ghost mut left = g1;
                    let ghost mut node_depth: u8 = 0;
                    let ghost mut node_low: i32 = 0;
                    let ghost mut node_high: i32 = 0;
                    let wide_low = negate(beta);
                    let wide_high = negate(alpha);
                    if !pv_found {
                        let (s, pv) = negamax(game_state, depth - 1, wide_low, wide_high, false, search_info);
                        score = negate(s);
                        child_pv = pv;
                        proof {
                            left = *game_state;
                            node_depth = (depth - 1) as u8;
                            node_low = wide_low;
                            node_high = wide_high;
                        }
                    } else {
                        let gives_check = game_state.is_check(side.opposite());
                        let reduced_depth = late_depth(depth, moves_searched, m.is_capture(), gives_check);
                        let (low, high) = zero_window(alpha);
                        let (s_reduced, pv_reduced) = negamax(game_state, reduced_depth, low, high, false, search_info);
                        let ghost g_mid = *game_state;
                        proof {
                            left = g_mid;
                            node_depth = reduced_depth;
                            node_low = low;
                            node_high = high;
                        }
                        if search_info.stop {
                            aborted = true;
                        } else if negate(s_reduced) > alpha {
                            let (s_full, pv_full) = negamax(game_state, depth - 1, wide_low, wide_high, false, search_info);
                            proof {
                                game_state.lemma_restored_trans(g_mid, g1);
                                g_mid.lemma_restored_facts(g1, Seq::empty());
                                g_mid.board_state.lemma_line_same(g1.board_state, pv_full@);
                                g0.board_state.lemma_made_to_same(m, g1.board_state, g_mid.board_state);
                                node = g_mid;
                                left = *game_state;
                                node_depth = (depth - 1) as u8;
                                node_low = wide_low;
                                node_high = wide_high;
                            }
                            if search_info.stop {
                                aborted = true;
                            } else {
                                score = negate(s_full);
                                child_pv = pv_full;
                            }
                        } else {
                            score = negate(s_reduced);
                            child_pv = pv_reduced;
                        }
                    }
                    let ghost g2 = *game_state;
                    proof {
                        g2.lemma_can_unmake(g0, m, g1);
                        assert(g1.board_state.is_line(child_pv@));
                        assert(g0.board_state.is_made(m, node.board_state) && node.wf() && node_depth < depth);
                        assert(!aborted && !search_info.stop ==> node_searched(
                            node,
                            left,
                            node_depth,
                            node_low,
                            node_high,
                            false,
                            spec_ply(info0.depth, node_depth),
                            (-score) as i32,
                            child_pv@,
                        ));
                    }
                    game_state.unmake_move();
                    proof {
                        entry.lemma_unmade(g0, m, g1, g2, *game_state);
                    }
                    if aborted || search_info.stop {
                        halted = true;
                    } else {
                        let known = tally(best_score, alpha, beta, score);
                        best_score = known.best_score;
                        alpha = known.alpha;
                        if known.raised {
                            pv_found = true;
                            best_pv = prepend(m, &child_pv);
                            proof {
                                g0.board_state.lemma_line_extend(m, g1.board_state, child_pv@);
                                g0.board_state.lemma_line_same(entry.board_state, best_pv@);
                                g0.board_state.lemma_made_same(entry.board_state, m, node.board_state);
                                lemma_line_scored(
                                    entry.board_state,
                                    depth,
                                    score,
                                    m,
                                    child_pv@,
                                    node,
                                    left,
                                    node_depth,
                                    node_low,
                                    node_high,
                                    spec_ply(info0.depth, node_depth),
                                );
                            }
                            if current_ply == 0 {
                                search_info.best_move = Some(m);
                                search_info.best_score = score;
                            }
                        }
                        if known.cutoff {
                            halted = true;
                        }
                        moves_searched = moves_searched + 1;
                    }
                }
            }
            i = i + 1;
        }
    }

    if !search_info.stop {
        let entry_type = bound_kind(best_score, entry_alpha, entry_beta);
        let ghost g0 = *game_state;
        game_state.tt_insert(zobrist_key, TTEntry { score: best_score, depth, entry_type });
        proof {
            reveal(GameState::restored);
            lemma_node_searched(
                entry,
                *game_state,
                depth,
                entry_alpha,
                entry_beta,
                null_move,
                current_ply,
                alpha,
                best_pv@,
            );
        }
    }
    (alpha, best_pv)
}

/// The first pseudo-legal move of the position that is legal, if there is one.
pub fn first_legal_move(game_state: &GameState) -> (r: Option<Move>)
    requires
        game_state.wf(),
    ensures
        r == game_state.board_state.spec_first_legal(),
        r is Some <==> game_state.board_state.has_legal_move(),
        r is Some ==> game_state.board_state.is_legal(r->Some_0),
{
    game_state.board_state.first_legal(&game_state.pregen_attacks, &game_state.zobrist)
}

/// The window an iteration starts with: the full window up to depth four or without a
/// score to go by, after that a window of half-width `window` round the score of the
/// iteration before.
pub open spec fn spec_aspiration(depth: u8, have_score: bool, last_score: i32, window: i32) -> (i32, i32) {
    let low: i32 = (-SCORE_LIMIT) as i32;
    if depth > 4 && have_score {
        (
            if last_score - window < low { low } else { (last_score - window) as i32 },
            if last_score + window > SCORE_LIMIT { SCORE_LIMIT } else { (last_score + window) as i32 },
        )
    } else {
        (low, SCORE_LIMIT)
    }
}

/// Chooses the window an iteration starts with.
pub fn aspiration(depth: u8, have_score: bool, last_score: i32, window: i32) -> (r: (i32, i32))
    requires
        -SCORE_LIMIT <= last_score <= SCORE_LIMIT,
        0 <= window <= ASPIRATION_LIMIT,
    ensures
        r == spec_aspiration(depth, have_score, last_score, window),
        -SCORE_LIMIT <= r.0 <= SCORE_LIMIT,
        -SCORE_LIMIT <= r.1 <= SCORE_LIMIT,
{
    if depth > 4 && have_score {
        let lo = if last_score < -SCORE_LIMIT + window { -SCORE_LIMIT } else { last_score - window };
        let hi = if last_score > SCORE_LIMIT - window { SCORE_LIMIT } else { last_score + window };
        (lo, hi)
    } else {
        (-SCORE_LIMIT, SCORE_LIMIT)
    }
}

/// The half-width of the next aspiration window: twice the old one after a search that
/// left the window, half as much again otherwise, and never beyond the limit.
pub open spec fn spec_next_window(window: i32, failed: bool) -> i32 {
    let grown = if failed { window * 2 } else { (window * 3) / 2 };
    if grown > ASPIRATION_LIMIT {
        ASPIRATION_LIMIT
    } else {
        grown as i32
    }
}

/// Widens the aspiration window for the next iteration.
pub fn next_window(window: i32, failed: bool) -> (r: i32)
    requires
        0 <= window <= ASPIRATION_LIMIT,
    ensures
        r == spec_next_window(window, failed),
        0 <= r <= ASPIRATION_LIMIT,
{
    let grown = if failed { window * 2 } else { (window * 3) / 2 };
    if grown > ASPIRATION_LIMIT {
        ASPIRATION_LIMIT
    } else {
        grown
    }
}

/// Whether `after` is `before` again but for the transposition table, which the search
/// may have written to, and the moves to go, of which there is one less, though never
/// less than one.
pub open spec fn searched(before: GameState, after: GameState) -> bool {
    &&& after.board_state.same_as(before.board_state)
    &&& after.history@ == before.history@
    &&& after.zobrist_history@ == before.zobrist_history@
    &&& after.pregen_attacks == before.pregen_attacks
    &&& after.zobrist == before.zobrist
    &&& after.clock_time == before.clock_time
    &&& after.moves_to_go == (if before.moves_to_go > 1 { (before.moves_to_go - 1) as u32 } else { before.moves_to_go })
}

/// What a search found.
pub struct SearchReport {
    /// The move to play: the best move at the root after the last iteration that was
    /// completed, or the first legal move if no iteration set one.
    pub best_move: Option<Move>,
    /// The depth of the last iteration that was completed; zero if none was.
    pub depth: u8,
    /// The score of that iteration.
    pub score: i32,
    /// The principal variation of that iteration.
    pub pv: Vec<Move>,
    /// Nodes visited.
    pub nodes: u64,
    /// The greatest ply reached.
    pub selective_depth: u8,
}

/// A copy of a line of moves.
fn copy_line(line: &Vec<Move>) -> (r: Vec<Move>)
    ensures
        r@ == line@,
{
    let mut out: Vec<Move> = Vec::new();
    let mut i: usize = 0;
    while i < line.len()
        invariant
            i <= line@.len(),
            out@ == line@.subrange(0, i as int),
        decreases line@.len() - i,
    {
        out.push(line[i]);
        assert(out@ =~= line@.subrange(0, i + 1));
        i = i + 1;
    }
    assert(out@ =~= line@);
    out
}

/// Searches deeper and deeper until `time_limit` milliseconds are spent, and reports the
/// last iteration that was completed. The move to play is the best move at the root
/// after that iteration, which is the first move of its principal variation where that
/// is not empty, or the first legal move if no iteration was completed or none set a
/// best move. There is a move to play exactly when the position has a legal move,
/// and the move is legal. The line reported can be played from the position. The game
/// is left as it was found, with one move less to go.
pub fn search(game_state: &mut GameState, time_limit: u64) -> (r: SearchReport)
    requires
        old(game_state).wf(),
    ensures
        final(game_state).wf(),
        searched(*old(game_state), *final(game_state)),
        r.best_move is Some <==> old(game_state).board_state.has_legal_move(),
        r.best_move is Some ==> old(game_state).board_state.is_legal(r.best_move->Some_0),
        r.depth <= MAX_PLY,
        r.depth == 0 ==> r.best_move == old(game_state).board_state.spec_first_legal() && r.pv@.len() == 0 && r.score
            == 0,
        !old(game_state).board_state.has_legal_move() ==> r.depth == 0 && r.nodes == 0,
        time_limit == 0 ==> r.depth == 0,
        -SCORE_LIMIT <= r.score <= SCORE_LIMIT,
        old(game_state).board_state.is_line(r.pv@),
        r.pv@.len() > 0 ==> r.best_move == Some(r.pv@[0]),
{
    let ghost entry = *game_state;
    proof {
        entry.lemma_restored_self();
    }
    let fallback = first_legal_move(game_state);
    let moves_to_go = if game_state.get_moves_to_go() < 1 { 1 } else { game_state.get_moves_to_go() };
    let mut search_info = SearchInfo::new(time_limit, moves_to_go);
    let mut window_size = ASPIRATION_WINDOW;
    let mut depth: u8 = 1;
    let mut last_full_best_move: Option<Move> = None;
    let mut last_full_score: i32 = 0;
    let mut last_full_pv: Vec<Move> = Vec::new();
    let mut halted = fallback.is_none();

    while depth <= MAX_PLY && !halted
        invariant
            1 <= depth <= MAX_PLY + 1,
            game_state.wf(),
            game_state.restored(entry),
            0 <= window_size <= ASPIRATION_LIMIT,
            -SCORE_LIMIT <= last_full_score <= SCORE_LIMIT,
            search_info.best_move is Some ==> entry.board_state.is_legal(search_info.best_move->Some_0),
            last_full_best_move is Some ==> entry.board_state.is_legal(last_full_best_move->Some_0),
            !halted ==> fallback is Some,
            last_full_best_move is Some ==> fallback is Some,
            depth == 1 ==> last_full_best_move is None && last_full_pv@.len() == 0 && last_full_score == 0,
            fallback is None ==> search_info.nodes == 0 && depth == 1,
            time_limit == 0 ==> search_info.time_management.max_time == 0 && depth == 1,
            entry.board_state.is_line(last_full_pv@),
            last_full_pv@.len() > 0 ==> last_full_best_move == Some(last_full_pv@[0]),
        decreases MAX_PLY + 1 - depth, (if halted { 0int } else { 1int }),
    {
        search_info.depth = depth;
        search_info.pv.clear();
        search_info.stop = false;
        let (alpha, beta) = aspiration(depth, last_full_best_move.is_some(), last_full_score, window_size);

        let ghost g0 = *game_state;
        let (first_score, pv) = negamax(game_state, depth, alpha, beta, false, &mut search_info);
        proof {
            g0.lemma_restored_facts(entry, Seq::empty());
            game_state.lemma_restored_trans(g0, entry);
            g0.board_state.lemma_line_same(entry.board_state, pv@);
        }
        if search_info.stop {
            halted = true;
        } else {
            let mut score = first_score;
            let failed = score <= alpha || score >= beta;
            let mut completed = true;
            if failed {
                let ghost g1 = *game_state;
                let (rescore, full_pv) = negamax(
                    game_state,
                    depth,
                    -SCORE_LIMIT,
                    SCORE_LIMIT,
                    false,
                    &mut search_info,
                );
                proof {
                    g1.lemma_restored_facts(entry, Seq::empty());
                    game_state.lemma_restored_trans(g1, entry);
                    g1.board_state.lemma_line_same(entry.board_state, full_pv@);
                }
                if search_info.stop {
                    completed = false;
                } else {
                    score = rescore;
                    search_info.pv = full_pv;
                }
            } else {
                search_info.pv = pv;
            }
            if completed {
                last_full_best_move = search_info.best_move;
                last_full_score = score;
                last_full_pv = copy_line(&search_info.pv);
                window_size = next_window(window_size, failed);
                depth = depth + 1;
            } else {
                halted = true;
            }
        }
    }
    let ghost g_end = *game_state;
    game_state.decrement_moves_to_go();
    proof {
        g_end.lemma_restored_facts(entry, Seq::empty());
    }
    SearchReport {
        best_move: match last_full_best_move {
            Some(m) => Some(m),
            None => fallback,
        },
        depth: depth - 1,
        score: last_full_score,
        pv: last_full_pv,
        nodes: search_info.nodes,
        selective_depth: search_info.selective_depth,
    }
}

/// Finds a move to play within `time_limit` milliseconds: the move that `search`
/// reports. There is a result exactly when the position has a legal move, and the
/// result is legal; with no time at all it is the first legal move. The game is left as
/// it was found, with one move less to go.
pub fn find_best_move(game_state: &mut GameState, time_limit: u64) -> (r: Option<Move>)
    requires
        old(game_state).wf(),
    ensures
        final(game_state).wf(),
        searched(*old(game_state), *final(game_state)),
        r is Some <==> old(game_state).board_state.has_legal_move(),
        r is Some ==> old(game_state).board_state.is_legal(r->Some_0),
        time_limit == 0 ==> r == old(game_state).board_state.spec_first_legal(),
{
    search(game_state, time_limit).best_move
}

} // verus!
