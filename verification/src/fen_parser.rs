//! Reading a position from Forsyth-Edwards Notation.
//!
//! A record has six fields separated by white space: piece placement from the eighth rank
//! down to the first, side to move, castling rights, en-passant square, half-move clock
//! and full-move number.

use crate::bitboard::{lemma_bit_logic, Bitboard};
use crate::board_state::{count_of, BoardState};
use crate::piece::{CastlePerms, Color, Piece};
use crate::piece_square_table::PieceSquareTable;
use crate::square::Square;
use crate::zobrist::{no_sentinel, ZobristHasher};
use vstd::prelude::*;
use vstd::string::StringExecFns;

verus! {

/// Whether a character separates fields: the characters with the Unicode property
/// White_Space.
pub open spec fn spec_is_space(c: char) -> bool {
    let v = c as u32;
    (0x09 <= v <= 0x0D) || v == 0x20 || v == 0x85 || v == 0xA0 || v == 0x1680 || (0x2000 <= v <= 0x200A) || v
        == 0x2028 || v == 0x2029 || v == 0x202F || v == 0x205F || v == 0x3000
}

/// Whether a character separates fields.
#[verifier::when_used_as_spec(spec_is_space)]
pub fn is_space(c: char) -> (r: bool)
    ensures
        r == spec_is_space(c),
{
    let v = c as u32;
    (0x09 <= v && v <= 0x0D) || v == 0x20 || v == 0x85 || v == 0xA0 || v == 0x1680 || (0x2000 <= v && v <= 0x200A)
        || v == 0x2028 || v == 0x2029 || v == 0x202F || v == 0x205F || v == 0x3000
}

/// The fields found in the first `n` characters of `s`, with the unfinished field last.
/// The result is the finished fields and the characters of the field in progress.
pub open spec fn split_state(s: Seq<char>, n: int) -> (Seq<Seq<char>>, Seq<char>)
    decreases n,
{
    if n <= 0 {
        (Seq::empty(), Seq::empty())
    } else {
        let (done, cur) = split_state(s, n - 1);
        let c = s[n - 1];
        if spec_is_space(c) {
            if cur.len() > 0 {
                (done.push(cur), Seq::empty())
            } else {
                (done, cur)
            }
        } else {
            (done, cur.push(c))
        }
    }
}

/// The fields of `s`: its maximal runs of characters that are not white space.
pub open spec fn spec_fields(s: Seq<char>) -> Seq<Seq<char>> {
    let (done, cur) = split_state(s, s.len() as int);
    if cur.len() > 0 {
        done.push(cur)
    } else {
        done
    }
}

/// The characters of a string.
pub fn to_chars(s: &str) -> (r: Vec<char>)
    ensures
        r@ == s@,
{
    let n = s.unicode_len();
    let mut out: Vec<char> = Vec::new();
    let mut i: usize = 0;
    while i < n
        invariant
            i <= n,
            n == s@.len(),
            out@ == s@.subrange(0, i as int),
        decreases n - i,
    {
        out.push(s.get_char(i));
        assert(out@ =~= s@.subrange(0, i + 1));
        i = i + 1;
    }
    assert(out@ =~= s@);
    out
}

/// Splits a record into its fields.
pub fn split_fields(s: &Vec<char>) -> (r: Vec<Vec<char>>)
    ensures
        r@.len() == spec_fields(s@).len(),
        forall|i: int| 0 <= i < r@.len() ==> (#[trigger] r@[i])@ == spec_fields(s@)[i],
{
    let mut done: Vec<Vec<char>> = Vec::new();
    let mut cur: Vec<char> = Vec::new();
    let mut i: usize = 0;
    while i < s.len()
        invariant
            i <= s@.len(),
            done@.len() == split_state(s@, i as int).0.len(),
            forall|k: int| 0 <= k < done@.len() ==> (#[trigger] done@[k])@ == split_state(s@, i as int).0[k],
            cur@ == split_state(s@, i as int).1,
        decreases s@.len() - i,
    {
        let c = s[i];
        if is_space(c) {
            if cur.len() > 0 {
                done.push(cur);
                cur = Vec::new();
            }
        } else {
            cur.push(c);
        }
        i = i + 1;
    }
    if cur.len() > 0 {
        done.push(cur);
    }
    done
}

/// Where a placement field has got to: the squares filled so far and the file and rank
/// the next character speaks of.
pub struct Placement {
    pub board: Seq<Option<Piece>>,
    pub file: int,
    pub rank: int,
}

/// Whether a character is one of the twelve piece letters.
pub open spec fn is_piece_letter(c: char) -> bool {
    Piece::spec_from_char(c) is Some && c != ' '
}

/// What one character of a placement field does: a piece letter fills the next square
/// of the rank, a digit skips that many squares, a slash ends a full rank and starts the
/// one below. Anything that does not fit makes the field invalid.
pub open spec fn placement_step(st: Placement, c: char) -> Option<Placement> {
    if is_piece_letter(c) {
        if st.file >= 8 {
            None
        } else {
            Some(
                Placement {
                    board: st.board.update(8 * st.rank + st.file, Piece::spec_from_char(c)),
                    file: st.file + 1,
                    rank: st.rank,
                },
            )
        }
    } else if '1' <= c <= '8' {
        let n = c as int - '0' as int;
        if st.file + n > 8 {
            None
        } else {
            Some(Placement { board: st.board, file: st.file + n, rank: st.rank })
        }
    } else if c == '/' {
        if st.file != 8 || st.rank == 0 {
            None
        } else {
            Some(Placement { board: st.board, file: 0, rank: st.rank - 1 })
        }
    } else {
        None
    }
}

/// What the first `n` characters of a placement field do to an empty board, from the
/// a-file of the eighth rank on.
pub open spec fn placement_run(s: Seq<char>, n: int) -> Option<Placement>
    decreases n,
{
    if n <= 0 {
        Some(Placement { board: Seq::new(64, |i: int| None), file: 0, rank: 7 })
    } else {
        match placement_run(s, n - 1) {
            Some(st) => placement_step(st, s[n - 1]),
            None => None,
        }
    }
}

/// The mailbox a placement field describes, if it is valid: it must end having filled
/// the first rank.
pub open spec fn spec_placement(s: Seq<char>) -> Option<Seq<Option<Piece>>> {
    match placement_run(s, s.len() as int) {
        Some(st) => if st.rank == 0 && st.file == 8 {
            Some(st.board)
        } else {
            None
        },
        None => None,
    }
}

/// The side a side field names.
pub open spec fn spec_side(s: Seq<char>) -> Option<Color> {
    if s == seq!['w'] {
        Some(Color::White)
    } else if s == seq!['b'] {
        Some(Color::Black)
    } else {
        None
    }
}

/// The rights the first `n` characters of a castling field name, if each is one of
/// `K`, `Q`, `k`, `q`.
pub open spec fn castling_run(s: Seq<char>, n: int) -> Option<u8>
    decreases n,
{
    if n <= 0 {
        Some(0u8)
    } else {
        match castling_run(s, n - 1) {
            Some(r) => {
                let c = s[n - 1];
                if c == 'K' {
                    Some(r | 1)
                } else if c == 'Q' {
                    Some(r | 2)
                } else if c == 'k' {
                    Some(r | 4)
                } else if c == 'q' {
                    Some(r | 8)
                } else {
                    None
                }
            },
            None => None,
        }
    }
}

/// The rights a castling field names: none for a dash.
pub open spec fn spec_castling(s: Seq<char>) -> Option<u8> {
    if s == seq!['-'] {
        Some(0u8)
    } else {
        castling_run(s, s.len() as int)
    }
}

/// What an en-passant field names: no square for a dash, otherwise the square its two
/// characters spell. The outer option tells whether the field is valid: a dash or the
/// name of a square, and nothing more.
pub open spec fn spec_en_passant(s: Seq<char>) -> Option<Option<Square>> {
    if s == seq!['-'] {
        Some(None)
    } else if s.len() != 2 {
        None
    } else {
        match Square::spec_from_string(s) {
            Some(sq) => Some(Some(sq)),
            None => None,
        }
    }
}

/// The number the first `n` characters of `s` spell from index `from` on, if they are
/// decimal digits and the number is at most `max`.
pub open spec fn digits_run(s: Seq<char>, from: int, n: int, max: int) -> Option<int>
    decreases n - from,
{
    if n <= from {
        Some(0int)
    } else {
        match digits_run(s, from, n - 1, max) {
            Some(v) => {
                let c = s[n - 1];
                if '0' <= c <= '9' && 10 * v + (c as int - '0' as int) <= max {
                    Some(10 * v + (c as int - '0' as int))
                } else {
                    None
                }
            },
            None => None,
        }
    }
}

/// The number a counter field spells: decimal digits, at least one, after an optional
/// plus sign, and no more than `max`.
pub open spec fn spec_number(s: Seq<char>, max: int) -> Option<int> {
    let from: int = if s.len() > 0 && s[0] == '+' { 1 } else { 0 };
    if s.len() <= from {
        None
    } else {
        digits_run(s, from, s.len() as int, max)
    }
}

/// Whether a record is valid: six fields, each of them valid.
pub open spec fn fen_valid(s: Seq<char>) -> bool {
    let f = spec_fields(s);
    &&& f.len() == 6
    &&& spec_placement(f[0]) is Some
    &&& spec_side(f[1]) is Some
    &&& spec_castling(f[2]) is Some
    &&& spec_en_passant(f[3]) is Some
    &&& spec_number(f[4], u8::MAX as int) is Some
    &&& spec_number(f[5], u32::MAX as int) is Some
}

/// Whether `b` is the position that the valid record `s` describes.
pub open spec fn fen_describes(s: Seq<char>, b: BoardState) -> bool {
    let f = spec_fields(s);
    &&& b.board@ == spec_placement(f[0])->Some_0
    &&& b.side == spec_side(f[1])->Some_0
    &&& b.castling_rights == spec_castling(f[2])->Some_0
    &&& b.en_passant == spec_en_passant(f[3])->Some_0
    &&& b.half_moves == spec_number(f[4], u8::MAX as int)->Some_0
    &&& b.full_moves == spec_number(f[5], u32::MAX as int)->Some_0
}

/// Reads the piece placement field into a mailbox.
pub fn parse_piece_placement(fen: &Vec<char>) -> (r: Result<[Option<Piece>; 64], String>)
    ensures
        r is Ok <==> spec_placement(fen@) is Some,
        r is Ok ==> r->Ok_0@ == spec_placement(fen@)->Some_0,
        r is Ok ==> no_sentinel(r->Ok_0@),
{
    let mut board: [Option<Piece>; 64] = [None;64];
    let mut file_index: usize = 0;
    let mut rank_index: usize = 7;
    let mut ok = true;
    let mut i: usize = 0;
    assert(board@ =~= Seq::new(64, |i: int| None::<Piece>));
    while i < fen.len()
        invariant
            i <= fen@.len(),
            ok <==> placement_run(fen@, i as int) is Some,
            ok ==> placement_run(fen@, i as int) == Some(
                Placement { board: board@, file: file_index as int, rank: rank_index as int },
            ),
            ok ==> file_index <= 8 && rank_index <= 7,
            no_sentinel(board@),
        decreases fen@.len() - i,
    {
        let c = fen[i];
        if ok {
            match Piece::from_char(c) {
                Ok(piece) => {
                    if c == ' ' || file_index >= 8 {
                        ok = false;
                    } else {
                        board[rank_index * 8 + file_index] = Some(piece);
                        file_index = file_index + 1;
                    }
                },
                Err(_) => {
                    if '1' <= c && c <= '8' {
                        let num = (c as u32 - '0' as u32) as usize;
                        if file_index + num > 8 {
                            ok = false;
                        } else {
                            file_index = file_index + num;
                        }
                    } else if c == '/' {
                        if file_index != 8 || rank_index == 0 {
                            ok = false;
                        } else {
                            file_index = 0;
                            rank_index = rank_index - 1;
                        }
                    } else {
                        ok = false;
                    }
                },
            }
        }
        i = i + 1;
    }
    if !ok {
        return Err(String::from_str("Invalid piece placement"));
    }
    if rank_index != 0 || file_index != 8 {
        return Err(String::from_str("Invalid piece placement: incomplete board"));
    }
    Ok(board)
}

/// Reads the side-to-move field.
pub fn parse_side(fen_side: &Vec<char>) -> (r: Result<Color, String>)
    ensures
        r is Ok <==> spec_side(fen_side@) is Some,
        r is Ok ==> Some(r->Ok_0) == spec_side(fen_side@),
{
    if fen_side.len() == 1 && fen_side[0] == 'w' {
        assert(fen_side@ =~= seq!['w']);
        Ok(Color::White)
    } else if fen_side.len() == 1 && fen_side[0] == 'b' {
        assert(fen_side@ =~= seq!['b']);
        Ok(Color::Black)
    } else {
        assert(seq!['w'].len() == 1 && seq!['w'][0] == 'w');
        assert(seq!['b'].len() == 1 && seq!['b'][0] == 'b');
        Err(String::from_str("Invalid side to move"))
    }
}

/// Reads the castling field.
pub fn parse_castling_rights(fen_castle: &Vec<char>) -> (r: Result<u8, String>)
    ensures
        r is Ok <==> spec_castling(fen_castle@) is Some,
        r is Ok ==> Some(r->Ok_0) == spec_castling(fen_castle@),
{
    if fen_castle.len() == 1 && fen_castle[0] == '-' {
        assert(fen_castle@ =~= seq!['-']);
        return Ok(0);
    }
    assert(seq!['-'].len() == 1 && seq!['-'][0] == '-');
    let mut cast_perm: u8 = 0;
    let mut ok = true;
    let mut i: usize = 0;
    while i < fen_castle.len()
        invariant
            i <= fen_castle@.len(),
            ok <==> castling_run(fen_castle@, i as int) is Some,
            ok ==> castling_run(fen_castle@, i as int) == Some(cast_perm),
        decreases fen_castle@.len() - i,
    {
        let c = fen_castle[i];
        if ok {
            if c == 'K' {
                cast_perm = cast_perm | CastlePerms::WKC.mask();
            } else if c == 'Q' {
                cast_perm = cast_perm | CastlePerms::WQC.mask();
            } else if c == 'k' {
                cast_perm = cast_perm | CastlePerms::BKC.mask();
            } else if c == 'q' {
                cast_perm = cast_perm | CastlePerms::BQC.mask();
            } else {
                ok = false;
            }
        }
        i = i + 1;
    }
    if ok {
        Ok(cast_perm)
    } else {
        Err(String::from_str("Invalid castling rights"))
    }
}

/// Reads the en-passant field.
pub fn parse_en_passant(fen_enpas: &Vec<char>) -> (r: Result<Option<Square>, String>)
    ensures
        r is Ok <==> spec_en_passant(fen_enpas@) is Some,
        r is Ok ==> Some(r->Ok_0) == spec_en_passant(fen_enpas@),
{
    if fen_enpas.len() == 1 && fen_enpas[0] == '-' {
        assert(fen_enpas@ =~= seq!['-']);
        return Ok(None);
    }
    assert(seq!['-'].len() == 1 && seq!['-'][0] == '-');
    if fen_enpas.len() != 2 {
        return Err(String::from_str("Invalid en passant square"));
    }
    let file = fen_enpas[0];
    let rank = fen_enpas[1];
    if file < 'a' || file > 'h' || rank < '1' || rank > '8' {
        return Err(String::from_str("Invalid en passant square"));
    }
    let f: usize = (file as u32 - 'a' as u32) as usize;
    let k: usize = (rank as u32 - '1' as u32) as usize;
    Ok(Some(Square::from_index(8 * k + f)))
}

/// Reads a counter field that must not exceed `max`.
pub fn parse_number(field: &Vec<char>, max: u32) -> (r: Option<u32>)
    ensures
        r is Some <==> spec_number(field@, max as int) is Some,
        r is Some ==> r->Some_0 == spec_number(field@, max as int)->Some_0,
{
    let from: usize = if field.len() > 0 && field[0] == '+' { 1 } else { 0 };
    if field.len() <= from {
        return None;
    }
    let mut value: u32 = 0;
    let mut ok = true;
    let mut i: usize = from;
    while i < field.len()
        invariant
            from <= i <= field@.len(),
            ok <==> digits_run(field@, from as int, i as int, max as int) is Some,
            ok ==> digits_run(field@, from as int, i as int, max as int) == Some(value as int),
            ok ==> value <= max,
        decreases field@.len() - i,
    {
        let c = field[i];
        if ok {
            if '0' <= c && c <= '9' {
                let d = c as u32 - '0' as u32;
                if value as u64 * 10 + d as u64 <= max as u64 {
                    value = value * 10 + d;
                } else {
                    ok = false;
                }
            } else {
                ok = false;
            }
        }
        i = i + 1;
    }
    if ok {
        Some(value)
    } else {
        None
    }
}

/// Reads both counter fields.
pub fn parse_move_counters(half_moves: &Vec<char>, full_moves: &Vec<char>) -> (r: Result<(u8, u32), String>)
    ensures
        r is Ok <==> spec_number(half_moves@, u8::MAX as int) is Some && spec_number(full_moves@, u32::MAX as int)
            is Some,
        r is Ok ==> r->Ok_0.0 == spec_number(half_moves@, u8::MAX as int)->Some_0 && r->Ok_0.1 == spec_number(
            full_moves@,
            u32::MAX as int,
        )->Some_0,
{
    let half = match parse_number(half_moves, 255) {
        Some(v) => v as u8,
        None => {
            return Err(String::from_str("Invalid half-move counter"));
        },
    };
    let full = match parse_number(full_moves, u32::MAX) {
        Some(v) => v,
        None => {
            return Err(String::from_str("Invalid full-move counter"));
        },
    };
    Ok((half, full))
}

/// On an empty board no piece is counted.
proof fn lemma_count_empty(board: Seq<Option<Piece>>, piece: Piece, n: int)
    requires
        0 <= n <= board.len(),
        forall|i: int| 0 <= i < board.len() ==> board[i] is None,
    ensures
        count_of(board, piece, n) == 0,
    decreases n,
{
    if n > 0 {
        lemma_count_empty(board, piece, n - 1);
    }
}

/// Sets up a state from a mailbox and the other parts of a position: every piece of the
/// mailbox is placed on an empty board, one by one.
pub fn build_board(
    board: &[Option<Piece>; 64],
    side: Color,
    en_passant: Option<Square>,
    castling_rights: u8,
    half_moves: u8,
    full_moves: u32,
    zobrist: &ZobristHasher,
) -> (r: BoardState)
    requires
        no_sentinel(board@),
    ensures
        r.wf(),
        r.hash_ok(*zobrist),
        r.board@ == board@,
        r.side == side,
        r.en_passant == en_passant,
        r.castling_rights == castling_rights,
        r.half_moves == half_moves,
        r.full_moves == full_moves,
{
    let empty: [Option<Piece>; 64] = [None;64];
    let zero = Bitboard::new_empty();
    let mut state = BoardState {
        piece_bb: [zero, zero, zero, zero, zero, zero, zero, zero, zero, zero, zero, zero],
        position_bb: [zero, zero],
        board: empty,
        piece_lists: [
            Vec::new(),
            Vec::new(),
            Vec::new(),
            Vec::new(),
            Vec::new(),
            Vec::new(),
            Vec::new(),
            Vec::new(),
            Vec::new(),
            Vec::new(),
            Vec::new(),
            Vec::new(),
        ],
        side,
        en_passant,
        castling_rights,
        half_moves,
        full_moves,
        material: [0, 0],
        piece_counts: [0, 0, 0, 0, 0, 0, 0, 0, 0, 0, 0, 0],
        psqt: PieceSquareTable::new(),
        zobrist_hash: 0,
        pawn_hash: 0,
    };
    state.zobrist_hash = zobrist.init_hash(&empty, side, en_passant, castling_rights);
    state.pawn_hash = zobrist.init_hash_pawns(&empty);
    proof {
        reveal(BoardState::bitboards_ok);
        reveal(BoardState::lists_ok);
        reveal(BoardState::counts_ok);
        assert forall|p: int, s: int| 0 <= p < 12 && 0 <= s < 64 implies !crate::bitboard::bit(state.piece_bb[p].0, s) by {
            lemma_bit_logic(0, 0, s);
        }
        assert forall|c: int, s: int| 0 <= c < 2 && 0 <= s < 64 implies !crate::bitboard::bit(state.position_bb[c].0, s) by {
            lemma_bit_logic(0, 0, s);
        }
        assert forall|p: int| 0 <= p < 12 implies count_of(state.board@, Piece::spec_from_index(p), 64) == 0 by {
            lemma_count_empty(state.board@, Piece::spec_from_index(p), 64);
        }
        assert(state.bitboards_ok());
        assert(state.lists_ok());
        assert(state.counts_ok());
    }
    let mut i: usize = 0;
    while i < 64
        invariant
            i <= 64,
            no_sentinel(board@),
            state.wf(),
            state.hash_ok(*zobrist),
            forall|j: int| 0 <= j < i ==> state.board@[j] == board@[j],
            forall|j: int| i <= j < 64 ==> state.board@[j] is None,
            state.side == side,
            state.en_passant == en_passant,
            state.castling_rights == castling_rights,
            state.half_moves == half_moves,
            state.full_moves == full_moves,
        decreases 64 - i,
    {
        if let Some(piece) = board[i] {
            let sq = Square::from_index(i);
            state.put_piece(piece, sq, zobrist);
        }
        i = i + 1;
    }
    assert(state.board@ =~= board@);
    state
}

/// Reads a position from a record in Forsyth-Edwards Notation. Succeeds exactly on the
/// valid records; the state returned is consistent, hashed with `zobrist`, and is the
/// position the record describes.
pub fn parse_fen(fen: &str, zobrist: &ZobristHasher) -> (r: Result<BoardState, String>)
    ensures
        r is Ok <==> fen_valid(fen@),
        r is Ok ==> r->Ok_0.wf() && r->Ok_0.hash_ok(*zobrist) && fen_describes(fen@, r->Ok_0),
{
    let chars = to_chars(fen);
    let fen_parts = split_fields(&chars);
    if fen_parts.len() != 6 {
        return Err(String::from_str("Invalid FEN string: expected 6 parts"));
    }
    let board = match parse_piece_placement(&fen_parts[0]) {
        Ok(b) => b,
        Err(e) => {
            return Err(e);
        },
    };
    let side = match parse_side(&fen_parts[1]) {
        Ok(s) => s,
        Err(e) => {
            return Err(e);
        },
    };
    let castling_rights = match parse_castling_rights(&fen_parts[2]) {
        Ok(c) => c,
        Err(e) => {
            return Err(e);
        },
    };
    let en_passant = match parse_en_passant(&fen_parts[3]) {
        Ok(sq) => sq,
        Err(e) => {
            return Err(e);
        },
    };
    let (half_moves, full_moves) = match parse_move_counters(&fen_parts[4], &fen_parts[5]) {
        Ok(c) => c,
        Err(e) => {
            return Err(e);
        },
    };
    Ok(build_board(&board, side, en_passant, castling_rights, half_moves, full_moves, zobrist))
}

impl BoardState {
    /// Reads a position from `fen_str`, or sets up the starting position if none is given.
    pub fn new(fen_str: Option<&str>, zobrist: &ZobristHasher) -> (r: Result<BoardState, String>)
        ensures
            ({
                let text = match fen_str {
                    Some(s) => s@,
                    None => crate::board_state::DEFAULT_FEN@,
                };
                &&& r is Ok <==> fen_valid(text)
                &&& r is Ok ==> r->Ok_0.wf() && r->Ok_0.hash_ok(*zobrist) && fen_describes(text, r->Ok_0)
            }),
    {
        match fen_str {
            Some(s) => parse_fen(s, zobrist),
            None => parse_fen(crate::board_state::DEFAULT_FEN, zobrist),
        }
    }
}

} // verus!
