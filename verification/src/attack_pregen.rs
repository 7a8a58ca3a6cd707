//! Attack sets of every piece on every square: pawns, knights and kings from shifted
//! single-square boards, bishops and rooks from magic-indexed tables that are checked
//! against ray tracing when they are built.

use crate::bitboard::{bit, lemma_bit_logic, on_board, Bitboard};
use crate::piece::{Color, PieceType};
use crate::square::Square;
use vstd::prelude::*;

verus! {

/// Magic multipliers for bishops, by square.
pub const BISHOP_MAGICS: [u64; 64] = [
    0x0002020202020200,
    0x0002020202020000,
    0x0004010202000000,
    0x0004040080000000,
    0x0001104000000000,
    0x0000821040000000,
    0x0000410410400000,
    0x0000104104104000,
    0x0000040404040400,
    0x0000020202020200,
    0x0000040102020000,
    0x0000040400800000,
    0x0000011040000000,
    0x0000008210400000,
    0x0000004104104000,
    0x0000002082082000,
    0x0004000808080800,
    0x0002000404040400,
    0x0001000202020200,
    0x0000800802004000,
    0x0000800400A00000,
    0x0000200100884000,
    0x0000400082082000,
    0x0000200041041000,
    0x0002080010101000,
    0x0001040008080800,
    0x0000208004010400,
    0x0000404004010200,
    0x0000840000802000,
    0x0000404002011000,
    0x0000808001041000,
    0x0000404000820800,
    0x0001041000202000,
    0x0000820800101000,
    0x0000104400080800,
    0x0000020080080080,
    0x0000404040040100,
    0x0000808100020100,
    0x0001010100020800,
    0x0000808080010400,
    0x0000820820004000,
    0x0000410410002000,
    0x0000082088001000,
    0x0000002011000800,
    0x0000080100400400,
    0x0001010101000200,
    0x0002020202000400,
    0x0001010101000200,
    0x0000410410400000,
    0x0000208208200000,
    0x0000002084100000,
    0x0000000020880000,
    0x0000001002020000,
    0x0000040408020000,
    0x0004040404040000,
    0x0002020202020000,
    0x0000104104104000,
    0x0000002082082000,
    0x0000000020841000,
    0x0000000000208800,
    0x0000000010020200,
    0x0000000404080200,
    0x0000040404040400,
    0x0002020202020200,
];

/// Magic multipliers for rooks, by square.
pub const ROOK_MAGICS: [u64; 64] = [
    0x0080001020400080,
    0x0040001000200040,
    0x0080081000200080,
    0x0080040800100080,
    0x0080020400080080,
    0x0080010200040080,
    0x0080008001000200,
    0x0080002040800100,
    0x0000800020400080,
    0x0000400020005000,
    0x0000801000200080,
    0x0000800800100080,
    0x0000800400080080,
    0x0000800200040080,
    0x0000800100020080,
    0x0000800040800100,
    0x0000208000400080,
    0x0000404000201000,
    0x0000808010002000,
    0x0000808008001000,
    0x0000808004000800,
    0x0000808002000400,
    0x0000010100020004,
    0x0000020000408104,
    0x0000208080004000,
    0x0000200040005000,
    0x0000100080200080,
    0x0000080080100080,
    0x0000040080080080,
    0x0000020080040080,
    0x0000010080800200,
    0x0000800080004100,
    0x0000204000800080,
    0x0000200040401000,
    0x0000100080802000,
    0x0000080080801000,
    0x0000040080800800,
    0x0000020080800400,
    0x0000020001010004,
    0x0000800040800100,
    0x0000204000808000,
    0x0000200040008080,
    0x0000100020008080,
    0x0000080010008080,
    0x0000040008008080,
    0x0000020004008080,
    0x0000010002008080,
    0x0000004081020004,
    0x0000204000800080,
    0x0000200040008080,
    0x0000100020008080,
    0x0000080010008080,
    0x0000040008008080,
    0x0000020004008080,
    0x0000800100020080,
    0x0000800041000080,
    0x00FFFCDDFCED714A,
    0x007FFCDDFCED714A,
    0x003FFFCDFFD88096,
    0x0000040810002101,
    0x0001000204080011,
    0x0001000204000801,
    0x0001000082000401,
    0x0001FFFAABFAD1A2,
];

/// Number of index bits a bishop's table uses, by square.
pub const BISHOP_RELEVANT_BITS: [u64; 64] = [
    6, 5, 5, 5, 5, 5, 5, 6,
    5, 5, 5, 5, 5, 5, 5, 5,
    5, 5, 7, 7, 7, 7, 5, 5,
    5, 5, 7, 9, 9, 7, 5, 5,
    5, 5, 7, 9, 9, 7, 5, 5,
    5, 5, 7, 7, 7, 7, 5, 5,
    5, 5, 5, 5, 5, 5, 5, 5,
    6, 5, 5, 5, 5, 5, 5, 6,
];

/// Number of index bits a rook's table uses, by square.
pub const ROOK_RELEVANT_BITS: [u64; 64] = [
    12, 11, 11, 11, 11, 11, 11, 12,
    11, 10, 10, 10, 10, 10, 10, 11,
    11, 10, 10, 10, 10, 10, 10, 11,
    11, 10, 10, 10, 10, 10, 10, 11,
    11, 10, 10, 10, 10, 10, 10, 11,
    11, 10, 10, 10, 10, 10, 10, 11,
    11, 10, 10, 10, 10, 10, 10, 11,
    12, 11, 11, 11, 11, 11, 11, 12,
];

/// The squares a slider visits going from `(x, y)` in steps of `(dx, dy)`: every square up
/// to and including the first occupied one, and none beyond the board's edge. `fuel`
/// bounds the number of steps; seven are enough on this board.
pub open spec fn ray_set(occ: u64, x: int, y: int, dx: int, dy: int, fuel: nat) -> Set<int>
    decreases fuel,
{
    if fuel == 0 || !on_board(x, y) {
        Set::empty()
    } else if bit(occ, 8 * y + x) {
        set![8 * y + x]
    } else {
        ray_set(occ, x + dx, y + dy, dx, dy, (fuel - 1) as nat).insert(8 * y + x)
    }
}

/// The squares of a ray whose occupancy matters: all but the last before the edge.
pub open spec fn ray_inner(x: int, y: int, dx: int, dy: int, fuel: nat) -> Set<int>
    decreases fuel,
{
    if fuel <= 1 || !on_board(x, y) || !on_board(x + dx, y + dy) {
        Set::empty()
    } else {
        ray_inner(x + dx, y + dy, dx, dy, (fuel - 1) as nat).insert(8 * y + x)
    }
}

/// The squares a rook on square `s` attacks when the occupied squares are `occ`.
pub open spec fn rook_attack_set(occ: u64, s: int) -> Set<int> {
    let f = s % 8;
    let r = s / 8;
    ray_set(occ, f - 1, r, -1, 0, 7).union(ray_set(occ, f + 1, r, 1, 0, 7)).union(
        ray_set(occ, f, r - 1, 0, -1, 7),
    ).union(ray_set(occ, f, r + 1, 0, 1, 7))
}

/// The squares a bishop on square `s` attacks when the occupied squares are `occ`.
pub open spec fn bishop_attack_set(occ: u64, s: int) -> Set<int> {
    let f = s % 8;
    let r = s / 8;
    ray_set(occ, f - 1, r - 1, -1, -1, 7).union(ray_set(occ, f - 1, r + 1, -1, 1, 7)).union(
        ray_set(occ, f + 1, r - 1, 1, -1, 7),
    ).union(ray_set(occ, f + 1, r + 1, 1, 1, 7))
}

/// The squares a queen on square `s` attacks: those of a rook and of a bishop.
pub open spec fn queen_attack_set(occ: u64, s: int) -> Set<int> {
    bishop_attack_set(occ, s).union(rook_attack_set(occ, s))
}

/// The squares whose occupancy decides a rook's attacks from `s`.
pub open spec fn rook_mask_set(s: int) -> Set<int> {
    let f = s % 8;
    let r = s / 8;
    ray_inner(f - 1, r, -1, 0, 7).union(ray_inner(f + 1, r, 1, 0, 7)).union(
        ray_inner(f, r - 1, 0, -1, 7),
    ).union(ray_inner(f, r + 1, 0, 1, 7))
}

/// The squares whose occupancy decides a bishop's attacks from `s`.
pub open spec fn bishop_mask_set(s: int) -> Set<int> {
    let f = s % 8;
    let r = s / 8;
    ray_inner(f - 1, r - 1, -1, -1, 7).union(ray_inner(f - 1, r + 1, -1, 1, 7)).union(
        ray_inner(f + 1, r - 1, 1, -1, 7),
    ).union(ray_inner(f + 1, r + 1, 1, 1, 7))
}

/// Attack set of a rook if `rook` holds, of a bishop otherwise.
pub open spec fn slider_attack_set(rook: bool, occ: u64, s: int) -> Set<int> {
    if rook {
        rook_attack_set(occ, s)
    } else {
        bishop_attack_set(occ, s)
    }
}

/// Relevance mask of a rook if `rook` holds, of a bishop otherwise.
pub open spec fn slider_mask_set(rook: bool, s: int) -> Set<int> {
    if rook {
        rook_mask_set(s)
    } else {
        bishop_mask_set(s)
    }
}

/// The magic multiplier of a square.
pub open spec fn magic_of(rook: bool, s: int) -> u64 {
    if rook {
        ROOK_MAGICS[s]
    } else {
        BISHOP_MAGICS[s]
    }
}

/// The number of index bits of a square.
pub open spec fn bits_of(rook: bool, s: int) -> u64 {
    if rook {
        ROOK_RELEVANT_BITS[s]
    } else {
        BISHOP_RELEVANT_BITS[s]
    }
}

/// The squares a pawn of `color` on square `s` attacks.
pub open spec fn pawn_attack_set(color: Color, s: int) -> Set<int> {
    Bitboard(1u64 << (s as u64)).spec_pawn_attack(color)
}

/// The squares a knight on square `s` attacks.
pub open spec fn knight_attack_set(s: int) -> Set<int> {
    Bitboard(1u64 << (s as u64)).spec_knight_attack()
}

/// The squares a king on square `s` attacks.
pub open spec fn king_attack_set(s: int) -> Set<int> {
    Bitboard(1u64 << (s as u64)).spec_king_attack()
}

/// The index of the square `k` steps along a ray from `(x, y)`.
pub open spec fn ray_square(x: int, y: int, dx: int, dy: int, k: int) -> int {
    8 * (y + k * dy) + (x + k * dx)
}

/// Whether the square `k` steps along a ray from `(x, y)` lies on the board and is
/// empty.
pub open spec fn ray_free(occ: u64, x: int, y: int, dx: int, dy: int, k: int) -> bool {
    on_board(x + k * dx, y + k * dy) && !bit(occ, ray_square(x, y, dx, dy, k))
}

/// Whether a slider reaches the square `k` steps along a ray from `(x, y)`: the square
/// lies on the board, and every square of the ray before it lies on the board and is
/// empty.
pub open spec fn ray_reaches(occ: u64, x: int, y: int, dx: int, dy: int, k: int) -> bool {
    &&& 0 <= k
    &&& on_board(x + k * dx, y + k * dy)
    &&& forall|j: int| 0 <= j < k ==> #[trigger] ray_free(occ, x, y, dx, dy, j)
}

/// The square `k` steps from the second square of a ray is the square `k + 1` steps
/// from the first.
pub proof fn lemma_ray_shift(occ: u64, x: int, y: int, dx: int, dy: int, k: int)
    ensures
        ray_square(x + dx, y + dy, dx, dy, k) == ray_square(x, y, dx, dy, k + 1),
        on_board(x + dx + k * dx, y + dy + k * dy) == on_board(x + (k + 1) * dx, y + (k + 1) * dy),
        ray_free(occ, x + dx, y + dy, dx, dy, k) == ray_free(occ, x, y, dx, dy, k + 1),
{
    assert((k + 1) * dx == k * dx + dx) by (nonlinear_arith);
    assert((k + 1) * dy == k * dy + dy) by (nonlinear_arith);
}

/// A ray holds exactly the squares a slider reaches along it within `fuel` steps.
pub proof fn lemma_ray_member(occ: u64, x: int, y: int, dx: int, dy: int, fuel: nat, t: int)
    ensures
        ray_set(occ, x, y, dx, dy, fuel).contains(t) <==> exists|k: int|
            0 <= k < fuel && #[trigger] ray_reaches(occ, x, y, dx, dy, k) && t == ray_square(x, y, dx, dy, k),
    decreases fuel,
{
    let here = 8 * y + x;
    assert(0 * dx == 0 && 0 * dy == 0) by (nonlinear_arith);
    assert(ray_square(x, y, dx, dy, 0) == here);
    if fuel == 0 {
    } else if !on_board(x, y) {
        assert forall|k: int| 0 <= k < fuel && #[trigger] ray_reaches(occ, x, y, dx, dy, k) implies false by {
            if k > 0 {
                assert(ray_free(occ, x, y, dx, dy, 0));
            }
        }
    } else if bit(occ, here) {
        assert(ray_reaches(occ, x, y, dx, dy, 0));
        assert forall|k: int| 0 <= k < fuel && #[trigger] ray_reaches(occ, x, y, dx, dy, k) implies k == 0 by {
            if k > 0 {
                assert(ray_free(occ, x, y, dx, dy, 0));
            }
        }
    } else {
        let rest = (fuel - 1) as nat;
        lemma_ray_member(occ, x + dx, y + dy, dx, dy, rest, t);
        assert(ray_reaches(occ, x, y, dx, dy, 0));
        assert(ray_free(occ, x, y, dx, dy, 0));
        if ray_set(occ, x, y, dx, dy, fuel).contains(t) {
            if t != here {
                let k = choose|k: int|
                    0 <= k < rest && #[trigger] ray_reaches(occ, x + dx, y + dy, dx, dy, k) && t == ray_square(
                        x + dx,
                        y + dy,
                        dx,
                        dy,
                        k,
                    );
                lemma_ray_shift(occ, x, y, dx, dy, k);
                assert forall|j: int| 0 <= j < k + 1 implies #[trigger] ray_free(occ, x, y, dx, dy, j) by {
                    if j > 0 {
                        lemma_ray_shift(occ, x, y, dx, dy, j - 1);
                        assert(ray_free(occ, x + dx, y + dy, dx, dy, j - 1));
                    }
                }
                assert(ray_reaches(occ, x, y, dx, dy, k + 1));
            }
        }
        if exists|k: int|
            0 <= k < fuel && #[trigger] ray_reaches(occ, x, y, dx, dy, k) && t == ray_square(x, y, dx, dy, k) {
            let k = choose|k: int|
                0 <= k < fuel && #[trigger] ray_reaches(occ, x, y, dx, dy, k) && t == ray_square(x, y, dx, dy, k);
            if k > 0 {
                lemma_ray_shift(occ, x, y, dx, dy, k - 1);
                assert forall|j: int| 0 <= j < k - 1 implies #[trigger] ray_free(occ, x + dx, y + dy, dx, dy, j) by {
                    lemma_ray_shift(occ, x, y, dx, dy, j);
                    assert(ray_free(occ, x, y, dx, dy, j + 1));
                }
                assert(ray_reaches(occ, x + dx, y + dy, dx, dy, k - 1));
            }
        }
    }
}

/// A square shifted from a single square is that square moved by the shift, if it stays
/// on the board.
pub proof fn lemma_shifted_single(s: int, df: int, dr: int, t: int)
    requires
        0 <= s < 64,
    ensures
        Bitboard(1u64 << (s as u64)).shifted(df, dr).contains(t) <==> (0 <= t < 64 && t % 8 - s % 8 == df && t / 8 - s / 8
            == dr),
{
    if 0 <= t < 64 && on_board(t % 8 - df, t / 8 - dr) {
        let u = t - df - 8 * dr;
        assert(u == 8 * (t / 8 - dr) + (t % 8 - df));
        assert(0 <= u < 64);
        crate::bitboard::lemma_bit_single(s, u);
        assert(u == s <==> (t % 8 - df == s % 8 && t / 8 - dr == s / 8));
    }
}

/// A knight attacks the squares one file and two ranks away, or two files and one rank.
pub proof fn lemma_knight_attacks(s: int, t: int)
    requires
        0 <= s < 64,
    ensures
        knight_attack_set(s).contains(t) <==> (0 <= t < 64 && ({
            let df = t % 8 - s % 8;
            let dr = t / 8 - s / 8;
            ((df == 1 || df == -1) && (dr == 2 || dr == -2)) || ((df == 2 || df == -2) && (dr == 1 || dr == -1))
        })),
{
    lemma_shifted_single(s, -1, 2, t);
    lemma_shifted_single(s, 1, 2, t);
    lemma_shifted_single(s, -1, -2, t);
    lemma_shifted_single(s, 1, -2, t);
    lemma_shifted_single(s, -2, 1, t);
    lemma_shifted_single(s, -2, -1, t);
    lemma_shifted_single(s, 2, 1, t);
    lemma_shifted_single(s, 2, -1, t);
}

/// A king attacks the squares next to its own.
pub proof fn lemma_king_attacks(s: int, t: int)
    requires
        0 <= s < 64,
    ensures
        king_attack_set(s).contains(t) <==> (0 <= t < 64 && t != s && ({
            let df = t % 8 - s % 8;
            let dr = t / 8 - s / 8;
            -1 <= df <= 1 && -1 <= dr <= 1
        })),
{
    lemma_shifted_single(s, 0, 1, t);
    lemma_shifted_single(s, 0, -1, t);
    lemma_shifted_single(s, -1, 0, t);
    lemma_shifted_single(s, 1, 0, t);
    lemma_shifted_single(s, -1, 1, t);
    lemma_shifted_single(s, 1, 1, t);
    lemma_shifted_single(s, -1, -1, t);
    lemma_shifted_single(s, 1, -1, t);
}

/// A pawn attacks the two squares one rank ahead of it on the neighbouring files.
pub proof fn lemma_pawn_attacks(color: Color, s: int, t: int)
    requires
        0 <= s < 64,
    ensures
        pawn_attack_set(color, s).contains(t) <==> (0 <= t < 64 && ({
            let df = t % 8 - s % 8;
            let dr = t / 8 - s / 8;
            (df == 1 || df == -1) && dr == (if color == Color::White { 1int } else { -1int })
        })),
{
    lemma_shifted_single(s, -1, 1, t);
    lemma_shifted_single(s, 1, 1, t);
    lemma_shifted_single(s, -1, -1, t);
    lemma_shifted_single(s, 1, -1, t);
}

/// The index that the magic number of square `s` gives the subset `sub` of `mask`.
#[verifier::opaque]
pub open spec fn magic_index_of(rook: bool, mask: Bitboard, s: int, sub: u64) -> int {
    Bitboard(sub).spec_magic_index(mask, magic_of(rook, s), bits_of(rook, s))
}

/// Where in a slider table the attack set for (`s`, `sub`) is kept.
pub open spec fn slot(rook: bool, masks: Seq<Bitboard>, offsets: Seq<usize>, s: int, sub: u64) -> int {
    offsets[s] + magic_index_of(rook, masks[s], s, sub)
}

/// Every square's share of a slider table lies inside the table.
pub open spec fn table_layout(rook: bool, offsets: Seq<usize>, table: Seq<Bitboard>) -> bool {
    &&& offsets.len() == 64
    &&& forall|s: int| 0 <= s < 64 ==> #[trigger] offsets[s] + (1u64 << bits_of(rook, s)) <= table.len()
}

/// Where the share of square `s` begins in a slider table: behind the shares of the
/// squares before it, each of which has one slot per index its magic number can give.
pub open spec fn offset_of(rook: bool, s: int) -> int
    decreases s,
{
    if s <= 0 {
        0
    } else {
        offset_of(rook, s - 1) + (1u64 << bits_of(rook, s - 1))
    }
}

/// Whether `w` is the least subset of `mask` that the magic number of square `s` sends
/// where it sends `sub`.
pub open spec fn least_in_slot(rook: bool, mask: Bitboard, s: int, sub: u64, w: u64) -> bool {
    &&& w & mask.0 == w
    &&& magic_index_of(rook, mask, s, w) == magic_index_of(rook, mask, s, sub)
    &&& forall|v: u64|
        v & mask.0 == v && #[trigger] magic_index_of(rook, mask, s, v) == magic_index_of(rook, mask, s, sub) ==> w <= v
}

/// Whether `entry` is what ray tracing gives for the least subset of `mask` that is sent
/// where `sub` is sent.
pub open spec fn slot_filled(rook: bool, mask: Bitboard, s: int, sub: u64, entry: Bitboard) -> bool {
    exists|w: u64| #[trigger] least_in_slot(rook, mask, s, sub, w) && entry@ == slider_attack_set(rook, w, s)
}

/// Whether no subset of `mask` is sent to index `t` by the magic number of square `s`.
pub open spec fn slot_unused(rook: bool, mask: Bitboard, s: int, t: int) -> bool {
    forall|sub: u64| sub & mask.0 == sub ==> #[trigger] magic_index_of(rook, mask, s, sub) != t
}

/// Whether the shares of the first `n` squares are filled: each begins where it should,
/// a slot that subsets of the square's mask are sent to holds what ray tracing gives for
/// the least of them, and every other slot is empty.
#[verifier::opaque]
pub open spec fn shares_filled(rook: bool, masks: Seq<Bitboard>, offsets: Seq<usize>, table: Seq<Bitboard>, n: int) -> bool {
    &&& forall|s: int| 0 <= s < n ==> #[trigger] offsets[s] == offset_of(rook, s)
    &&& forall|s: int, sub: u64|
        0 <= s < n && #[trigger] Bitboard(sub).is_submask_of(masks[s]) ==> slot_filled(
            rook,
            masks[s],
            s,
            sub,
            table[offsets[s] + magic_index_of(rook, masks[s], s, sub)],
        )
    &&& forall|s: int, t: int|
        0 <= s < n && 0 <= t < (1u64 << bits_of(rook, s)) && #[trigger] slot_unused(rook, masks[s], s, t) ==> table[offsets[s]
            + t].0 == 0
}

/// The table as it is filled: the shares of all 64 squares are filled, and nothing
/// follows them.
pub open spec fn table_filled(rook: bool, masks: Seq<Bitboard>, offsets: Seq<usize>, table: Seq<Bitboard>) -> bool {
    &&& offsets.len() == 64
    &&& table.len() == offset_of(rook, 64)
    &&& shares_filled(rook, masks, offsets, table, 64)
}

/// A magic index has no more bits than the square has index bits.
pub proof fn lemma_magic_index_bound(rook: bool, mask: Bitboard, s: int, sub: u64)
    requires
        0 <= s < 64,
    ensures
        0 <= magic_index_of(rook, mask, s, sub) < (1u64 << bits_of(rook, s)),
{
    reveal(magic_index_of);
    let product = vstd::wrapping::u64_specs::wrapping_mul(sub & mask.0, magic_of(rook, s));
    let bits = bits_of(rook, s);
    let down = (64 - bits) as u64;
    assert(5 <= bits <= 12);
    assert(product >> down < (1u64 << bits)) by (bit_vector)
        requires
            5 <= bits <= 12,
            down == 64 - bits,
    ;
}

/// The bishop's table has 5248 slots, the rook's 102400.
pub proof fn lemma_table_sizes()
    ensures
        offset_of(false, 64) == 5248,
        offset_of(true, 64) == 102400,
{
    assert((1u64 << 5u64) == 32 && (1u64 << 6u64) == 64 && (1u64 << 7u64) == 128 && (1u64 << 9u64) == 512 && (1u64 << 10u64)
        == 1024 && (1u64 << 11u64) == 2048 && (1u64 << 12u64) == 4096) by (bit_vector);
    reveal_with_fuel(offset_of, 65);
}

/// The share of a square begins at no negative index, the share of the next square
/// where it ends, and no share has more than 4096 slots.
pub proof fn lemma_offsets(rook: bool, s: int)
    requires
        0 <= s < 64,
    ensures
        0 <= offset_of(rook, s),
        offset_of(rook, s + 1) == offset_of(rook, s) + (1u64 << bits_of(rook, s)),
        offset_of(rook, s + 1) <= 4096 * (s + 1),
    decreases s,
{
    let bits = bits_of(rook, s);
    assert(5 <= bits <= 12);
    assert((1u64 << bits) <= 4096) by (bit_vector)
        requires
            5 <= bits <= 12,
    ;
    if s > 0 {
        lemma_offsets(rook, s - 1);
    }
}

/// The shares of later squares begin further on.
pub proof fn lemma_offsets_grow(rook: bool, a: int, b: int)
    requires
        0 <= a <= b <= 64,
    ensures
        offset_of(rook, a) <= offset_of(rook, b),
    decreases b - a,
{
    if a < b {
        lemma_offsets(rook, b - 1);
        lemma_offsets_grow(rook, a, b - 1);
    }
}

/// Whether the magic numbers send no two subsets of a square's mask with different
/// attack sets to one slot.
pub open spec fn collision_free(rook: bool, masks: Seq<Bitboard>) -> bool {
    forall|s: int, a: u64, b: u64|
        0 <= s < 64 && a & masks[s].0 == a && b & masks[s].0 == b && #[trigger] magic_index_of(rook, masks[s], s, a)
            == #[trigger] magic_index_of(rook, masks[s], s, b) ==> slider_attack_set(rook, a, s) == slider_attack_set(
            rook,
            b,
            s,
        )
}

/// The relevance masks of a slider, by square.
pub open spec fn slider_masks(rook: bool) -> Seq<Bitboard> {
    Seq::new(64, |s: int| choose|m: Bitboard| m@ == slider_mask_set(rook, s))
}

/// Whether the magic numbers of a slider can be relied on: on no square do they send
/// two subsets of the relevance mask with different attack sets to one slot.
pub open spec fn magic_sound(rook: bool) -> bool {
    collision_free(rook, slider_masks(rook))
}

/// Masks that are exact are the relevance masks.
pub proof fn lemma_masks_unique(rook: bool, masks: Seq<Bitboard>)
    requires
        masks_exact(rook, masks),
    ensures
        masks == slider_masks(rook),
{
    assert forall|s: int| 0 <= s < 64 implies masks[s] == #[trigger] slider_masks(rook)[s] by {
        let m = choose|m: Bitboard| m@ == slider_mask_set(rook, s);
        assert(masks[s]@ == slider_mask_set(rook, s));
        crate::bitboard::lemma_view_injective(masks[s], m);
    }
    assert(masks =~= slider_masks(rook));
}

/// A table that is filled is exact precisely when the magic numbers send no two subsets
/// of a mask with different attack sets to one slot.
pub proof fn lemma_filled_exact(rook: bool, masks: Seq<Bitboard>, offsets: Seq<usize>, table: Seq<Bitboard>)
    requires
        masks.len() == 64,
        table_filled(rook, masks, offsets, table),
    ensures
        table_exact(rook, masks, offsets, table) <==> collision_free(rook, masks),
{
    reveal(shares_filled);
    if table_exact(rook, masks, offsets, table) {
        assert forall|s: int, a: u64, b: u64|
            0 <= s < 64 && a & masks[s].0 == a && b & masks[s].0 == b && #[trigger] magic_index_of(rook, masks[s], s, a)
                == #[trigger] magic_index_of(rook, masks[s], s, b) implies slider_attack_set(rook, a, s)
            == slider_attack_set(rook, b, s) by {
            assert(table[slot(rook, masks, offsets, s, a)]@ == slider_attack_set(rook, a, s));
            assert(table[slot(rook, masks, offsets, s, b)]@ == slider_attack_set(rook, b, s));
        }
    }
    if collision_free(rook, masks) {
        assert forall|s: int, sub: u64| 0 <= s < 64 && sub & masks[s].0 == sub implies table[#[trigger] slot(
            rook,
            masks,
            offsets,
            s,
            sub,
        )]@ == slider_attack_set(rook, sub, s) by {
            let entry = table[offsets[s] + magic_index_of(rook, masks[s], s, sub)];
            assert(Bitboard(sub).is_submask_of(masks[s]));
            assert(slot_filled(rook, masks[s], s, sub, entry));
            let w = choose|w: u64| #[trigger]
                least_in_slot(rook, masks[s], s, sub, w) && entry@ == slider_attack_set(rook, w, s);
            assert(magic_index_of(rook, masks[s], s, w) == magic_index_of(rook, masks[s], s, sub));
        }
    }
}


/// The table holds, for every square and every subset of its mask, the set that ray
/// tracing gives.
pub open spec fn table_exact(rook: bool, masks: Seq<Bitboard>, offsets: Seq<usize>, table: Seq<Bitboard>) -> bool {
    forall|s: int, sub: u64|
        0 <= s < 64 && sub & masks[s].0 == sub ==> table[#[trigger] slot(rook, masks, offsets, s, sub)]@
            == slider_attack_set(rook, sub, s)
}

/// The masks are those of the 64 squares.
pub open spec fn masks_exact(rook: bool, masks: Seq<Bitboard>) -> bool {
    &&& masks.len() == 64
    &&& forall|s: int| 0 <= s < 64 ==> (#[trigger] masks[s])@ == slider_mask_set(rook, s)
}

/// Occupancy outside the inner squares of a ray does not change what the ray reaches.
pub proof fn lemma_ray_relevant(occ: u64, m: u64, x: int, y: int, dx: int, dy: int, fuel: nat)
    requires
        forall|q: int| ray_inner(x, y, dx, dy, fuel).contains(q) ==> bit(m, q),
    ensures
        ray_set(occ, x, y, dx, dy, fuel) == ray_set(occ & m, x, y, dx, dy, fuel),
    decreases fuel,
{
    if fuel == 0 || !on_board(x, y) {
    } else {
        let q = 8 * y + x;
        let rest = (fuel - 1) as nat;
        if fuel == 1 || !on_board(x + dx, y + dy) {
            assert(ray_set(occ, x + dx, y + dy, dx, dy, rest) =~= Set::<int>::empty());
            assert(ray_set(occ & m, x + dx, y + dy, dx, dy, rest) =~= Set::<int>::empty());
            assert(ray_set(occ, x, y, dx, dy, fuel) =~= set![q]);
            assert(ray_set(occ & m, x, y, dx, dy, fuel) =~= set![q]);
        } else {
            assert(ray_inner(x, y, dx, dy, fuel).contains(q));
            lemma_bit_logic(occ, m, q);
            assert forall|p: int| ray_inner(x + dx, y + dy, dx, dy, rest).contains(p) implies bit(m, p) by {
                assert(ray_inner(x, y, dx, dy, fuel).contains(p));
            }
            lemma_ray_relevant(occ, m, x + dx, y + dy, dx, dy, rest);
        }
    }
}

/// A slider's attacks depend on the occupancy only through the squares of its mask.
pub proof fn lemma_mask_relevant(rook: bool, occ: u64, mask: Bitboard, s: int)
    requires
        0 <= s < 64,
        mask@ == slider_mask_set(rook, s),
    ensures
        slider_attack_set(rook, occ, s) == slider_attack_set(rook, occ & mask.0, s),
{
    let f = s % 8;
    let r = s / 8;
    let m = mask.0;
    assert forall|q: int| slider_mask_set(rook, s).contains(q) implies bit(m, q) by {
        assert(mask@.contains(q));
    }
    if rook {
        lemma_ray_relevant(occ, m, f - 1, r, -1, 0, 7);
        lemma_ray_relevant(occ, m, f + 1, r, 1, 0, 7);
        lemma_ray_relevant(occ, m, f, r - 1, 0, -1, 7);
        lemma_ray_relevant(occ, m, f, r + 1, 0, 1, 7);
    } else {
        lemma_ray_relevant(occ, m, f - 1, r - 1, -1, -1, 7);
        lemma_ray_relevant(occ, m, f - 1, r + 1, -1, 1, 7);
        lemma_ray_relevant(occ, m, f + 1, r - 1, 1, -1, 7);
        lemma_ray_relevant(occ, m, f + 1, r + 1, 1, 1, 7);
    }
}

/// What a table lookup finds and what ray tracing finds for one square and occupancy
/// are the same bitboard.
pub proof fn lemma_lookup_is_ray_tracing(found: Bitboard, traced: Bitboard, rook: bool, occ: u64, s: int)
    requires
        found@ == slider_attack_set(rook, occ, s),
        traced@ == slider_attack_set(rook, occ, s),
    ensures
        found == traced,
{
    crate::bitboard::lemma_view_injective(found, traced);
}

/// The squares reached from `square` in one direction under `occupancy`.
fn ray_attack(square: Square, occupancy: Bitboard, dx: i8, dy: i8) -> (r: Bitboard)
    requires
        -1 <= dx <= 1,
        -1 <= dy <= 1,
    ensures
        r@ == ray_set(occupancy.0, square.file_idx() + dx, square.rank_idx() + dy, dx as int, dy as int, 7),
{
    let file = square.get_file().to_index() as i8;
    let rank = square.get_rank().to_index() as i8;
    let mut x: i8 = file + dx;
    let mut y: i8 = rank + dy;
    let mut steps: u8 = 7;
    let mut acc = Bitboard::new_empty();
    let mut open = true;
    let ghost target = ray_set(occupancy.0, file + dx, rank + dy, dx as int, dy as int, 7);
    assert(acc@.union(target) =~= target);
    while open && steps > 0 && x >= 0 && x <= 7 && y >= 0 && y <= 7
        invariant
            -1 <= dx <= 1,
            -1 <= dy <= 1,
            -1 <= x <= 8,
            -1 <= y <= 8,
            steps <= 7,
            open ==> acc@.union(ray_set(occupancy.0, x as int, y as int, dx as int, dy as int, steps as nat)) == target,
            !open ==> acc@ == target,
        decreases (if open { steps + 1 } else { 0int }),
    {
        let ghost before = acc@;
        let ghost rest = ray_set(occupancy.0, x as int, y as int, dx as int, dy as int, steps as nat);
        let sq = Square::from_index((y as usize) * 8 + (x as usize));
        acc.set_square(sq);
        if occupancy.is_occupied(sq) {
            open = false;
            assert(acc@ =~= before.union(rest));
        } else {
            x = x + dx;
            y = y + dy;
            steps = steps - 1;
            assert(acc@.union(ray_set(occupancy.0, x as int, y as int, dx as int, dy as int, steps as nat))
                =~= before.union(rest));
        }
    }
    proof {
        if open {
            assert(acc@ =~= acc@.union(ray_set(occupancy.0, x as int, y as int, dx as int, dy as int, steps as nat)));
        }
    }
    acc
}

/// The inner squares of the ray from `square` in one direction.
fn ray_mask(square: Square, dx: i8, dy: i8) -> (r: Bitboard)
    requires
        -1 <= dx <= 1,
        -1 <= dy <= 1,
    ensures
        r@ == ray_inner(square.file_idx() + dx, square.rank_idx() + dy, dx as int, dy as int, 7),
{
    let file = square.get_file().to_index() as i8;
    let rank = square.get_rank().to_index() as i8;
    let mut x: i8 = file + dx;
    let mut y: i8 = rank + dy;
    let mut steps: u8 = 7;
    let mut acc = Bitboard::new_empty();
    let ghost target = ray_inner(file + dx, rank + dy, dx as int, dy as int, 7);
    assert(acc@.union(target) =~= target);
    while steps > 1 && x >= 0 && x <= 7 && y >= 0 && y <= 7 && x + dx >= 0 && x + dx <= 7 && y + dy >= 0 && y + dy
        <= 7
        invariant
            -1 <= dx <= 1,
            -1 <= dy <= 1,
            -1 <= x <= 8,
            -1 <= y <= 8,
            steps <= 7,
            acc@.union(ray_inner(x as int, y as int, dx as int, dy as int, steps as nat)) == target,
        decreases steps,
    {
        let ghost before = acc@;
        let ghost rest = ray_inner(x as int, y as int, dx as int, dy as int, steps as nat);
        let sq = Square::from_index((y as usize) * 8 + (x as usize));
        acc.set_square(sq);
        x = x + dx;
        y = y + dy;
        steps = steps - 1;
        assert(acc@.union(ray_inner(x as int, y as int, dx as int, dy as int, steps as nat)) =~= before.union(rest));
    }
    proof {
        assert(acc@ =~= acc@.union(ray_inner(x as int, y as int, dx as int, dy as int, steps as nat)));
    }
    acc
}

/// A bishop's attacks from `square`, found by walking its four diagonals.
pub fn bishop_attack_otf(square: Square, occupancy: Bitboard) -> (r: Bitboard)
    ensures
        r@ == bishop_attack_set(occupancy.0, square.idx()),
{
    ray_attack(square, occupancy, -1, -1).combine(ray_attack(square, occupancy, -1, 1)).combine(
        ray_attack(square, occupancy, 1, -1),
    ).combine(ray_attack(square, occupancy, 1, 1))
}

/// A rook's attacks from `square`, found by walking its rank and file.
pub fn rook_attack_otf(square: Square, occupancy: Bitboard) -> (r: Bitboard)
    ensures
        r@ == rook_attack_set(occupancy.0, square.idx()),
{
    ray_attack(square, occupancy, -1, 0).combine(ray_attack(square, occupancy, 1, 0)).combine(
        ray_attack(square, occupancy, 0, -1),
    ).combine(ray_attack(square, occupancy, 0, 1))
}

fn slider_attack_otf(rook: bool, square: Square, occupancy: Bitboard) -> (r: Bitboard)
    ensures
        r@ == slider_attack_set(rook, occupancy.0, square.idx()),
{
    if rook {
        rook_attack_otf(square, occupancy)
    } else {
        bishop_attack_otf(square, occupancy)
    }
}

/// The attacks of a pawn of `color` on `square`.
pub fn gen_pawn_attack(color: Color, square: Square) -> (r: Bitboard)
    ensures
        r@ == pawn_attack_set(color, square.idx()),
{
    Bitboard::new_from_square(square).shift_pawn_attack(color)
}

/// The attacks of a knight on `square`.
pub fn gen_knight_attack(square: Square) -> (r: Bitboard)
    ensures
        r@ == knight_attack_set(square.idx()),
{
    Bitboard::new_from_square(square).shift_knight_attack()
}

/// The attacks of a king on `square`.
pub fn gen_king_attack(square: Square) -> (r: Bitboard)
    ensures
        r@ == king_attack_set(square.idx()),
{
    Bitboard::new_from_square(square).shift_king_attack()
}

fn gen_slider_masks(rook: bool) -> (r: Vec<Bitboard>)
    ensures
        masks_exact(rook, r@),
{
    let mut masks: Vec<Bitboard> = Vec::new();
    let mut i: usize = 0;
    while i < 64
        invariant
            i <= 64,
            masks@.len() == i,
            forall|s: int| 0 <= s < i ==> (#[trigger] masks@[s])@ == slider_mask_set(rook, s),
        decreases 64 - i,
    {
        let s = Square::from_index(i);
        let m = if rook {
            ray_mask(s, -1, 0).combine(ray_mask(s, 1, 0)).combine(ray_mask(s, 0, -1)).combine(ray_mask(s, 0, 1))
        } else {
            ray_mask(s, -1, -1).combine(ray_mask(s, -1, 1)).combine(ray_mask(s, 1, -1)).combine(ray_mask(s, 1, 1))
        };
        masks.push(m);
        i = i + 1;
    }
    masks
}

/// The relevance masks of a bishop, by square.
pub fn gen_bishop_masks() -> (r: Vec<Bitboard>)
    ensures
        masks_exact(false, r@),
{
    gen_slider_masks(false)
}

/// The relevance masks of a rook, by square.
pub fn gen_rook_masks() -> (r: Vec<Bitboard>)
    ensures
        masks_exact(true, r@),
{
    gen_slider_masks(true)
}

fn magic_number(rook: bool, i: usize) -> (r: u64)
    requires
        i < 64,
    ensures
        r == magic_of(rook, i as int),
{
    if rook {
        ROOK_MAGICS[i]
    } else {
        BISHOP_MAGICS[i]
    }
}

fn relevant_bits(rook: bool, i: usize) -> (r: u64)
    requires
        i < 64,
    ensures
        r == bits_of(rook, i as int),
        5 <= r <= 12,
{
    if rook {
        ROOK_RELEVANT_BITS[i]
    } else {
        BISHOP_RELEVANT_BITS[i]
    }
}

/// Pawn, knight and king attacks of every square. The pawn table holds White's 64
/// entries first, then Black's.
pub fn init_nonsliding_attacks() -> (r: (Vec<Bitboard>, Vec<Bitboard>, Vec<Bitboard>))
    ensures
        r.0@.len() == 128,
        r.1@.len() == 64,
        r.2@.len() == 64,
        forall|s: int| 0 <= s < 64 ==> (#[trigger] r.0@[s])@ == pawn_attack_set(Color::White, s),
        forall|s: int| 0 <= s < 64 ==> (#[trigger] r.0@[64 + s])@ == pawn_attack_set(Color::Black, s),
        forall|s: int| 0 <= s < 64 ==> (#[trigger] r.1@[s])@ == knight_attack_set(s),
        forall|s: int| 0 <= s < 64 ==> (#[trigger] r.2@[s])@ == king_attack_set(s),
{
    let mut pawn: Vec<Bitboard> = Vec::new();
    let mut knight: Vec<Bitboard> = Vec::new();
    let mut king: Vec<Bitboard> = Vec::new();
    let mut i: usize = 0;
    while i < 64
        invariant
            i <= 64,
            pawn@.len() == i,
            knight@.len() == i,
            king@.len() == i,
            forall|s: int| 0 <= s < i ==> (#[trigger] pawn@[s])@ == pawn_attack_set(Color::White, s),
            forall|s: int| 0 <= s < i ==> (#[trigger] knight@[s])@ == knight_attack_set(s),
            forall|s: int| 0 <= s < i ==> (#[trigger] king@[s])@ == king_attack_set(s),
        decreases 64 - i,
    {
        let s = Square::from_index(i);
        pawn.push(gen_pawn_attack(Color::White, s));
        knight.push(gen_knight_attack(s));
        king.push(gen_king_attack(s));
        i = i + 1;
    }
    i = 0;
    while i < 64
        invariant
            i <= 64,
            pawn@.len() == 64 + i,
            forall|s: int| 0 <= s < 64 ==> (#[trigger] pawn@[s])@ == pawn_attack_set(Color::White, s),
            forall|s: int| 0 <= s < i ==> (#[trigger] pawn@[64 + s])@ == pawn_attack_set(Color::Black, s),
        decreases 64 - i,
    {
        let s = Square::from_index(i);
        pawn.push(gen_pawn_attack(Color::Black, s));
        i = i + 1;
    }
    (pawn, knight, king)
}

/// Whether, of the first `j` of `subsets`, the one at `k` is the last that is sent where
/// the one at `n` is sent.
pub open spec fn last_sent(rook: bool, mask: Bitboard, s: int, subsets: Seq<Bitboard>, j: int, n: int, k: int) -> bool {
    &&& n <= k < j
    &&& magic_index_of(rook, mask, s, subsets[k].0) == magic_index_of(rook, mask, s, subsets[n].0)
    &&& forall|l: int| k < l < j ==> magic_index_of(rook, mask, s, (#[trigger] subsets[l]).0) != magic_index_of(rook, mask, s, subsets[n].0)
}

/// Whether the slot to which the subset at `n` is sent holds what ray tracing gives for
/// the last of the first `j` of `subsets` that is sent there. The slots of the square
/// begin at `start`.
pub open spec fn last_kept(
    rook: bool,
    mask: Bitboard,
    s: int,
    subsets: Seq<Bitboard>,
    j: int,
    n: int,
    table: Seq<Bitboard>,
    start: int,
) -> bool {
    exists|l: int| #[trigger]
        last_sent(rook, mask, s, subsets, j, n, l) && table[start + magic_index_of(rook, mask, s, subsets[n].0)]@
            == slider_attack_set(rook, subsets[l].0, s)
}

/// Whether none of the first `j` of `subsets` is sent to index `t`.
pub open spec fn none_sent(rook: bool, mask: Bitboard, s: int, subsets: Seq<Bitboard>, j: int, t: int) -> bool {
    forall|n: int| 0 <= n < j ==> magic_index_of(rook, mask, s, (#[trigger] subsets[n]).0) != t
}

/// In a table that is filled every square's share lies inside the table.
pub proof fn lemma_filled_layout(rook: bool, masks: Seq<Bitboard>, offsets: Seq<usize>, table: Seq<Bitboard>)
    requires
        table_filled(rook, masks, offsets, table),
    ensures
        table_layout(rook, offsets, table),
{
    reveal(shares_filled);
    assert forall|s: int| 0 <= s < 64 implies #[trigger] offsets[s] + (1u64 << bits_of(rook, s)) <= table.len() by {
        lemma_offsets(rook, s);
        lemma_offsets_grow(rook, s + 1, 64);
    }
}

/// Once every subset of a mask has been written to its slot, from the mask down to the
/// empty set, each slot written to holds what ray tracing gives for the least subset
/// sent to it, and the slots left empty are those that no subset is sent to.
pub proof fn lemma_share_filled(
    rook: bool,
    mask: Bitboard,
    s: int,
    subsets: Seq<Bitboard>,
    table: Seq<Bitboard>,
    start: int,
)
    requires
        0 <= s < 64,
        forall|n: int| 0 <= n < subsets.len() ==> (#[trigger] subsets[n]).is_submask_of(mask),
        forall|a: int, b: int| 0 <= a < b < subsets.len() ==> subsets[a].0 > subsets[b].0,
        forall|t: Bitboard| t.is_submask_of(mask) ==> exists|n: int| 0 <= n < subsets.len() && #[trigger] subsets[n] == t,
        forall|n: int|
            0 <= n < subsets.len() ==> #[trigger] last_kept(rook, mask, s, subsets, subsets.len() as int, n, table, start),
        forall|t: int|
            0 <= t < (1u64 << bits_of(rook, s)) && #[trigger] none_sent(rook, mask, s, subsets, subsets.len() as int, t)
                ==> table[start + t].0 == 0,
    ensures
        forall|sub: u64| #[trigger]
            Bitboard(sub).is_submask_of(mask) ==> slot_filled(
                rook,
                mask,
                s,
                sub,
                table[start + magic_index_of(rook, mask, s, sub)],
            ),
        forall|t: int|
            0 <= t < (1u64 << bits_of(rook, s)) && #[trigger] slot_unused(rook, mask, s, t) ==> table[start + t].0 == 0,
{
    let len = subsets.len() as int;
    assert forall|sub: u64| #[trigger] Bitboard(sub).is_submask_of(mask) implies slot_filled(
        rook,
        mask,
        s,
        sub,
        table[start + magic_index_of(rook, mask, s, sub)],
    ) by {
        let t = Bitboard(sub);
        assert(t.is_submask_of(mask));
        let n = choose|n: int| 0 <= n < subsets.len() && #[trigger] subsets[n] == t;
        let entry = table[start + magic_index_of(rook, mask, s, subsets[n].0)];
        assert(last_kept(rook, mask, s, subsets, len, n, table, start));
        let l = choose|l: int| #[trigger]
            last_sent(rook, mask, s, subsets, len, n, l) && entry@ == slider_attack_set(rook, subsets[l].0, s);
        let w = subsets[l].0;
        assert(subsets[l].is_submask_of(mask));
        assert forall|v: u64|
            v & mask.0 == v && #[trigger] magic_index_of(rook, mask, s, v) == magic_index_of(rook, mask, s, sub) implies w
            <= v by {
            let tv = Bitboard(v);
            assert(tv.is_submask_of(mask));
            let m = choose|m: int| 0 <= m < subsets.len() && #[trigger] subsets[m] == tv;
            if m > l {
                assert(magic_index_of(rook, mask, s, subsets[m].0) != magic_index_of(rook, mask, s, subsets[n].0));
            }
        }
        assert(least_in_slot(rook, mask, s, sub, w));
    }
    assert forall|t: int|
        0 <= t < (1u64 << bits_of(rook, s)) && #[trigger] slot_unused(rook, mask, s, t) implies table[start + t].0
        == 0 by {
        assert forall|n: int| 0 <= n < len implies magic_index_of(rook, mask, s, (#[trigger] subsets[n]).0) != t by {
            assert(subsets[n].is_submask_of(mask));
        }
        assert(none_sent(rook, mask, s, subsets, len, t));
    }
}

/// Filling the share of one more square behind the shares that are filled leaves those
/// as they are.
pub proof fn lemma_share_added(
    rook: bool,
    masks: Seq<Bitboard>,
    before_offsets: Seq<usize>,
    before: Seq<Bitboard>,
    offsets: Seq<usize>,
    table: Seq<Bitboard>,
    n: int,
)
    requires
        0 <= n < 64,
        masks.len() == 64,
        before_offsets.len() == n,
        before.len() == offset_of(rook, n),
        offsets == before_offsets.push(offset_of(rook, n) as usize),
        shares_filled(rook, masks, before_offsets, before, n),
        forall|x: int| 0 <= x < before.len() ==> table[x] == before[x],
        forall|sub: u64| #[trigger]
            Bitboard(sub).is_submask_of(masks[n]) ==> slot_filled(
                rook,
                masks[n],
                n,
                sub,
                table[offset_of(rook, n) + magic_index_of(rook, masks[n], n, sub)],
            ),
        forall|t: int|
            0 <= t < (1u64 << bits_of(rook, n)) && #[trigger] slot_unused(rook, masks[n], n, t) ==> table[offset_of(rook, n)
                + t].0 == 0,
    ensures
        shares_filled(rook, masks, offsets, table, n + 1),
{
    reveal(shares_filled);
    lemma_offsets(rook, n);
    assert forall|s: int| 0 <= s < n + 1 implies #[trigger] offsets[s] == offset_of(rook, s) by {
        if s < n {
            assert(before_offsets[s] == offset_of(rook, s));
        }
    }
    assert forall|s: int, sub: u64| 0 <= s < n + 1 && #[trigger] Bitboard(sub).is_submask_of(masks[s]) implies slot_filled(
        rook,
        masks[s],
        s,
        sub,
        table[offsets[s] + magic_index_of(rook, masks[s], s, sub)],
    ) by {
        if s < n {
            lemma_magic_index_bound(rook, masks[s], s, sub);
            lemma_offsets(rook, s);
            lemma_offsets_grow(rook, s + 1, n);
            assert(before_offsets[s] == offset_of(rook, s));
            let x = before_offsets[s] + magic_index_of(rook, masks[s], s, sub);
            assert(Bitboard(sub).is_submask_of(masks[s]));
            assert(slot_filled(rook, masks[s], s, sub, before[x]));
            assert(table[x] == before[x]);
        }
    }
    assert forall|s: int, t: int|
        0 <= s < n + 1 && 0 <= t < (1u64 << bits_of(rook, s)) && #[trigger] slot_unused(rook, masks[s], s, t) implies table[offsets[s]
        + t].0 == 0 by {
        if s < n {
            lemma_offsets(rook, s);
            lemma_offsets_grow(rook, s + 1, n);
            assert(before_offsets[s] == offset_of(rook, s));
            let x = before_offsets[s] + t;
            assert(before[x].0 == 0);
            assert(table[x] == before[x]);
        }
    }
}

/// Lays out and fills the magic table of one kind of slider: for every square, one slot
/// per index the square's magic number can produce, filled by ray tracing every subset
/// of the square's mask, from the mask itself down to the empty set.
pub fn init_sliding_attacks(rook: bool, masks: &Vec<Bitboard>) -> (r: (Vec<usize>, Vec<Bitboard>))
    requires
        masks@.len() == 64,
    ensures
        table_layout(rook, r.0@, r.1@),
        table_filled(rook, masks@, r.0@, r.1@),
{
    let mut offsets: Vec<usize> = Vec::new();
    let mut table: Vec<Bitboard> = Vec::new();
    let mut i: usize = 0;
    proof {
        reveal(shares_filled);
    }
    while i < 64
        invariant
            i <= 64,
            masks@.len() == 64,
            offsets@.len() == i,
            table@.len() == offset_of(rook, i as int),
            table@.len() <= 4096 * i,
            shares_filled(rook, masks@, offsets@, table@, i as int),
        decreases 64 - i,
    {
        let sq = Square::from_index(i);
        let mask = masks[i];
        let magic = magic_number(rook, i);
        let bits = relevant_bits(rook, i);
        let start = table.len();
        let ghost old_offsets = offsets@;
        let ghost old_table = table@;
        proof {
            lemma_offsets(rook, i as int);
            assert(1u64 << bits <= 4096) by (bit_vector)
                requires
                    5 <= bits <= 12,
            ;
        }
        let size: usize = (1u64 << bits) as usize;
        offsets.push(start);
        let mut k: usize = 0;
        while k < size
            invariant
                k <= size,
                size <= 4096,
                start <= 4096 * i,
                table@.len() == start + k,
                forall|x: int| 0 <= x < start ==> table@[x] == old_table[x],
                forall|t: int| 0 <= t < k ==> (#[trigger] table@[start + t]).0 == 0,
            decreases size - k,
        {
            table.push(Bitboard::new_empty());
            k = k + 1;
        }
        let subsets = mask.get_occupancies();
        let mut j: usize = 0;
        while j < subsets.len()
            invariant
                j <= subsets@.len(),
                table@.len() == start + size,
                size == (1u64 << bits),
                size <= 4096,
                start <= 4096 * i,
                i < 64,
                sq.idx() == i,
                magic == magic_of(rook, i as int),
                bits == bits_of(rook, i as int),
                5 <= bits <= 12,
                forall|x: int| 0 <= x < start ==> table@[x] == old_table[x],
                forall|n: int|
                    0 <= n < j ==> #[trigger] last_kept(rook, mask, i as int, subsets@, j as int, n, table@, start as int),
                forall|t: int|
                    0 <= t < size && #[trigger] none_sent(rook, mask, i as int, subsets@, j as int, t) ==> table@[start
                        + t].0 == 0,
            decreases subsets@.len() - j,
        {
            let occ = subsets[j];
            let magic_index = occ.get_magic_index(&mask, &magic, &bits);
            let ghost before = table@;
            table.set(start + magic_index, slider_attack_otf(rook, sq, occ));
            proof {
                let here = magic_index_of(rook, mask, i as int, occ.0);
                assert(here == magic_index) by {
                    reveal(magic_index_of);
                }
                assert forall|n: int| 0 <= n < j + 1 implies #[trigger] last_kept(
                    rook,
                    mask,
                    i as int,
                    subsets@,
                    j + 1,
                    n,
                    table@,
                    start as int,
                ) by {
                    let there = magic_index_of(rook, mask, i as int, subsets@[n].0);
                    if there == here {
                        assert(last_sent(rook, mask, i as int, subsets@, j + 1, n, j as int));
                    } else {
                        assert(last_kept(rook, mask, i as int, subsets@, j as int, n, before, start as int));
                        let l = choose|l: int| #[trigger]
                            last_sent(rook, mask, i as int, subsets@, j as int, n, l) && before[start + there]@
                                == slider_attack_set(rook, subsets@[l].0, i as int);
                        lemma_magic_index_bound(rook, mask, i as int, subsets@[n].0);
                        assert(last_sent(rook, mask, i as int, subsets@, j + 1, n, l));
                    }
                }
                assert forall|t: int|
                    0 <= t < size && #[trigger] none_sent(rook, mask, i as int, subsets@, j + 1, t) implies table@[start
                    + t].0 == 0 by {
                    assert(magic_index_of(rook, mask, i as int, subsets@[j as int].0) != t);
                    assert(none_sent(rook, mask, i as int, subsets@, j as int, t));
                }
            }
            j = j + 1;
        }
        proof {
            lemma_share_filled(rook, mask, i as int, subsets@, table@, start as int);
            lemma_share_added(rook, masks@, old_offsets, old_table, offsets@, table@, i as int);
        }
        i = i + 1;
    }
    proof {
        lemma_filled_layout(rook, masks@, offsets@, table@);
    }
    (offsets, table)
}

/// Compares every entry a lookup can reach with ray tracing. True exactly when the magic
/// numbers send no two subsets with different attack sets to one slot.
fn check_sliding_attacks(rook: bool, masks: &Vec<Bitboard>, offsets: &Vec<usize>, table: &Vec<Bitboard>) -> (ok: bool)
    requires
        masks@.len() == 64,
        table_layout(rook, offsets@, table@),
    ensures
        ok == table_exact(rook, masks@, offsets@, table@),
{
    let mut i: usize = 0;
    let size = table.len();
    while i < 64
        invariant
            i <= 64,
            masks@.len() == 64,
            size == table@.len(),
            table_layout(rook, offsets@, table@),
            forall|s: int, sub: u64|
                0 <= s < i && sub & masks@[s].0 == sub ==> table@[#[trigger] slot(rook, masks@, offsets@, s, sub)]@
                    == slider_attack_set(rook, sub, s),
        decreases 64 - i,
    {
        let sq = Square::from_index(i);
        let mask = masks[i];
        let magic = magic_number(rook, i);
        let bits = relevant_bits(rook, i);
        let start = offsets[i];
        let subsets = mask.get_occupancies();
        let mut j: usize = 0;
        assert(offsets@[i as int] + (1u64 << bits_of(rook, i as int)) <= table@.len());
        while j < subsets.len()
            invariant
                j <= subsets@.len(),
                i < 64,
                masks@.len() == 64,
                offsets@.len() == 64,
                mask == masks@[i as int],
                magic == magic_of(rook, i as int),
                bits == bits_of(rook, i as int),
                5 <= bits <= 12,
                start == offsets@[i as int],
                sq.idx() == i,
                size == table@.len(),
                start + (1u64 << bits) <= table@.len(),
                forall|n: int| 0 <= n < subsets@.len() ==> (#[trigger] subsets@[n]).is_submask_of(mask),
                forall|n: int|
                    0 <= n < j ==> table@[#[trigger] slot(rook, masks@, offsets@, i as int, subsets@[n].0)]@
                        == slider_attack_set(rook, subsets@[n].0, i as int),
            decreases subsets@.len() - j,
        {
            let occ = subsets[j];
            let magic_index = occ.get_magic_index(&mask, &magic, &bits);
            let expected = slider_attack_otf(rook, sq, occ);
            let found = table[start + magic_index];
            proof {
                assert(occ.is_submask_of(mask));
                assert(start + magic_index == slot(rook, masks@, offsets@, i as int, occ.0)) by {
                    reveal(magic_index_of);
                }
            }
            if found.0 != expected.0 {
                proof {
                    if found@ == expected@ {
                        crate::bitboard::lemma_view_injective(found, expected);
                    }
                    assert(occ.0 & masks@[i as int].0 == occ.0);
                }
                return false;
            }
            j = j + 1;
        }
        proof {
            assert forall|s: int, sub: u64|
                0 <= s < i + 1 && sub & masks@[s].0 == sub implies table@[#[trigger] slot(rook, masks@, offsets@, s, sub)]@
                    == slider_attack_set(rook, sub, s) by {
                if s == i {
                    let t = Bitboard(sub);
                    assert(t.is_submask_of(mask));
                    let n = choose|n: int| 0 <= n < subsets@.len() && #[trigger] subsets@[n] == t;
                    assert(subsets@[n].0 == sub);
                }
            }
        }
        i = i + 1;
    }
    true
}

/// Reads a slider's attack set from a table that passed the check: the slot is found by
/// masking the occupancy, multiplying by the square's magic number and keeping the top
/// bits.
fn lookup_slider(
    rook: bool,
    masks: &Vec<Bitboard>,
    offsets: &Vec<usize>,
    table: &Vec<Bitboard>,
    square: Square,
    occupancy: Bitboard,
) -> (r: Bitboard)
    requires
        masks_exact(rook, masks@),
        table_layout(rook, offsets@, table@),
        table_exact(rook, masks@, offsets@, table@),
    ensures
        r@ == slider_attack_set(rook, occupancy.0, square.idx()),
{
    let i = square.to_index();
    let magic = magic_number(rook, i);
    let bits = relevant_bits(rook, i);
    let mask = masks[i];
    let start = offsets[i];
    let size = table.len();
    let magic_index = occupancy.get_magic_index(&mask, &magic, &bits);
    proof {
        let sub = occupancy.0 & mask.0;
        let m = mask.0;
        let o = occupancy.0;
        assert((o & m) & m == o & m) by (bit_vector);
        assert(offsets@[i as int] + (1u64 << bits_of(rook, i as int)) <= table@.len());
        assert(start + magic_index == slot(rook, masks@, offsets@, i as int, sub)) by {
            reveal(magic_index_of);
        }
        assert(table@[slot(rook, masks@, offsets@, i as int, sub)]@ == slider_attack_set(rook, sub, i as int));
        lemma_mask_relevant(rook, occupancy.0, mask, i as int);
    }
    table[start + magic_index]
}

/// The precomputed attack tables.
pub struct PregenAttacks {
    pawn: Vec<Bitboard>,
    knight: Vec<Bitboard>,
    king: Vec<Bitboard>,
    bishop_masks: Vec<Bitboard>,
    bishop_indices: Vec<usize>,
    bishop: Vec<Bitboard>,
    rook_masks: Vec<Bitboard>,
    rook_indices: Vec<usize>,
    rook: Vec<Bitboard>,
    magic_ok: bool,
}

impl PregenAttacks {
    /// The tables hold what their names say. The slider tables are relied on only where
    /// the check at construction found them exact; otherwise lookups trace rays.
    #[verifier::type_invariant]
    closed spec fn inv(self) -> bool {
        &&& self.pawn@.len() == 128
        &&& self.knight@.len() == 64
        &&& self.king@.len() == 64
        &&& forall|s: int| 0 <= s < 64 ==> (#[trigger] self.pawn@[s])@ == pawn_attack_set(Color::White, s)
        &&& forall|s: int| 0 <= s < 64 ==> (#[trigger] self.pawn@[64 + s])@ == pawn_attack_set(Color::Black, s)
        &&& forall|s: int| 0 <= s < 64 ==> (#[trigger] self.knight@[s])@ == knight_attack_set(s)
        &&& forall|s: int| 0 <= s < 64 ==> (#[trigger] self.king@[s])@ == king_attack_set(s)
        &&& masks_exact(false, self.bishop_masks@)
        &&& masks_exact(true, self.rook_masks@)
        &&& table_layout(false, self.bishop_indices@, self.bishop@)
        &&& table_layout(true, self.rook_indices@, self.rook@)
        &&& self.magic_ok ==> table_exact(false, self.bishop_masks@, self.bishop_indices@, self.bishop@)
        &&& self.magic_ok ==> table_exact(true, self.rook_masks@, self.rook_indices@, self.rook@)
    }

    /// Whether lookups for sliders go through the magic tables. False only if the check
    /// at construction found a slot that two subsets with different attacks share.
    pub closed spec fn uses_magic(self) -> bool {
        self.magic_ok
    }

    /// Builds all tables and checks the slider tables against ray tracing. The magic
    /// tables are in use exactly when the magic numbers of both sliders can be relied on.
    pub fn init() -> (r: PregenAttacks)
        ensures
            r.uses_magic() == (magic_sound(false) && magic_sound(true)),
    {
        let (pawn, knight, king) = init_nonsliding_attacks();
        let bishop_masks = gen_bishop_masks();
        let rook_masks = gen_rook_masks();
        let (bishop_indices, bishop) = init_sliding_attacks(false, &bishop_masks);
        let (rook_indices, rook) = init_sliding_attacks(true, &rook_masks);
        let bishop_ok = check_sliding_attacks(false, &bishop_masks, &bishop_indices, &bishop);
        let rook_ok = check_sliding_attacks(true, &rook_masks, &rook_indices, &rook);
        proof {
            lemma_masks_unique(false, bishop_masks@);
            lemma_masks_unique(true, rook_masks@);
            lemma_filled_exact(false, bishop_masks@, bishop_indices@, bishop@);
            lemma_filled_exact(true, rook_masks@, rook_indices@, rook@);
        }
        PregenAttacks {
            pawn,
            knight,
            king,
            bishop_masks,
            bishop_indices,
            bishop,
            rook_masks,
            rook_indices,
            rook,
            magic_ok: bishop_ok && rook_ok,
        }
    }

    /// Whether the magic tables passed the check and are in use.
    pub fn is_magic(&self) -> (r: bool)
        ensures
            r == self.uses_magic(),
    {
        self.magic_ok
    }

    /// The squares a pawn of `color` on `square` attacks.
    pub fn get_pawn_attacks(&self, color: Color, square: Square) -> (r: Bitboard)
        ensures
            r@ == pawn_attack_set(color, square.idx()),
    {
        proof {
            use_type_invariant(self);
        }
        self.pawn[64 * color.to_index() + square.to_index()]
    }

    /// The squares a knight on `square` attacks.
    pub fn get_knight_attacks(&self, square: Square) -> (r: Bitboard)
        ensures
            r@ == knight_attack_set(square.idx()),
    {
        proof {
            use_type_invariant(self);
        }
        self.knight[square.to_index()]
    }

    /// The squares a king on `square` attacks.
    pub fn get_king_attacks(&self, square: Square) -> (r: Bitboard)
        ensures
            r@ == king_attack_set(square.idx()),
    {
        proof {
            use_type_invariant(self);
        }
        self.king[square.to_index()]
    }

    fn get_slider_attacks(&self, rook: bool, square: Square, occupancy: Bitboard) -> (r: Bitboard)
        ensures
            r@ == slider_attack_set(rook, occupancy.0, square.idx()),
    {
        proof {
            use_type_invariant(self);
        }
        if !self.magic_ok {
            slider_attack_otf(rook, square, occupancy)
        } else if rook {
            lookup_slider(true, &self.rook_masks, &self.rook_indices, &self.rook, square, occupancy)
        } else {
            lookup_slider(false, &self.bishop_masks, &self.bishop_indices, &self.bishop, square, occupancy)
        }
    }

    /// The squares a bishop on `square` attacks when the occupied squares are `occupancy`.
    pub fn get_bishop_attacks(&self, square: Square, occupancy: Bitboard) -> (r: Bitboard)
        ensures
            r@ == bishop_attack_set(occupancy.0, square.idx()),
    {
        self.get_slider_attacks(false, square, occupancy)
    }

    /// The squares a rook on `square` attacks when the occupied squares are `occupancy`.
    pub fn get_rook_attacks(&self, square: Square, occupancy: Bitboard) -> (r: Bitboard)
        ensures
            r@ == rook_attack_set(occupancy.0, square.idx()),
    {
        self.get_slider_attacks(true, square, occupancy)
    }

    /// The squares a queen on `square` attacks when the occupied squares are `occupancy`.
    pub fn get_queen_attacks(&self, square: Square, occupancy: Bitboard) -> (r: Bitboard)
        ensures
            r@ == queen_attack_set(occupancy.0, square.idx()),
    {
        self.get_bishop_attacks(square, occupancy).combine(self.get_rook_attacks(square, occupancy))
    }

    /// The attack set of a piece of the given kind and colour on `square`.
    pub open spec fn spec_piece_attacks(piece: PieceType, color: Color, s: int, occ: u64) -> Set<int> {
        match piece {
            PieceType::Pawn => pawn_attack_set(color, s),
            PieceType::Knight => knight_attack_set(s),
            PieceType::King => king_attack_set(s),
            PieceType::Bishop => bishop_attack_set(occ, s),
            PieceType::Rook => rook_attack_set(occ, s),
            PieceType::Queen => queen_attack_set(occ, s),
        }
    }

    /// The squares a piece of the given kind and colour on `square` attacks.
    pub fn get_piece_attacks(&self, piece: PieceType, color: Color, square: Square, occupancy: Bitboard) -> (r: Bitboard)
        ensures
            r@ == Self::spec_piece_attacks(piece, color, square.idx(), occupancy.0),
    {
        match piece {
            PieceType::Pawn => self.get_pawn_attacks(color, square),
            PieceType::Knight => self.get_knight_attacks(square),
            PieceType::King => self.get_king_attacks(square),
            PieceType::Bishop => self.get_bishop_attacks(square, occupancy),
            PieceType::Rook => self.get_rook_attacks(square, occupancy),
            PieceType::Queen => self.get_queen_attacks(square, occupancy),
        }
    }
}

} // verus!
