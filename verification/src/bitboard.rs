//! Sets of squares held in one 64-bit word.

use crate::piece::Color;
use crate::square::{File, Rank, Square};
use vstd::arithmetic::power2::{lemma2_to64, lemma_pow2_unfold, pow2};
use vstd::prelude::*;
use vstd::relations::injective_on;
use vstd::set_lib::{lemma_int_range, lemma_len_subset, lemma_map_size, lemma_set_disjoint_lens, set_int_range};
use vstd::std_specs::bits::{axiom_u64_leading_zeros, axiom_u64_trailing_zeros, u64_leading_zeros, u64_trailing_zeros};

verus! {

/// A set of squares: bit `i` of the word is set exactly when the square with index `i`
/// belongs to the set.
#[derive(Copy, Clone, PartialEq, Eq, Debug, Hash, Structural)]
pub struct Bitboard(pub u64);

/// The squares of the a-file.
pub const FILE_A: u64 = 0x0101010101010101;

/// The squares of the h-file.
pub const FILE_H: u64 = 0x8080808080808080;

/// The squares of the first rank.
pub const RANK_1: u64 = 0x00000000000000ff;

/// The squares of the eighth rank.
pub const RANK_8: u64 = 0xff00000000000000;

/// Whether bit `i` of `x` is set. False for every `i` outside `0..64`.
pub open spec fn bit(x: u64, i: int) -> bool {
    0 <= i < 64 && (x >> (i as u64)) & 1 == 1
}

/// Whether `(file, rank)` are the coordinates of a square.
pub open spec fn on_board(file: int, rank: int) -> bool {
    0 <= file < 8 && 0 <= rank < 8
}

/// Bits of unions, intersections, complements, differences and symmetric differences.
pub proof fn lemma_bit_logic(a: u64, b: u64, i: int)
    requires
        0 <= i < 64,
    ensures
        bit(a | b, i) == (bit(a, i) || bit(b, i)),
        bit(a & b, i) == (bit(a, i) && bit(b, i)),
        bit(a ^ b, i) == (bit(a, i) != bit(b, i)),
        bit(a & !b, i) == (bit(a, i) && !bit(b, i)),
        bit(!a, i) == !bit(a, i),
        !bit(0, i),
        bit(0xFFFF_FFFF_FFFF_FFFF, i),
        bit(a, i) <==> (a >> (i as u64)) & 1 != 0,
        a ^ b == 0 ==> a == b,
{
    let k = i as u64;
    assert({
        &&& (((a | b) >> k) & 1 == 1) == (((a >> k) & 1 == 1) || ((b >> k) & 1 == 1))
        &&& (((a & b) >> k) & 1 == 1) == (((a >> k) & 1 == 1) && ((b >> k) & 1 == 1))
        &&& (((a ^ b) >> k) & 1 == 1) == (((a >> k) & 1 == 1) != ((b >> k) & 1 == 1))
        &&& (((a & !b) >> k) & 1 == 1) == (((a >> k) & 1 == 1) && !((b >> k) & 1 == 1))
        &&& (((!a) >> k) & 1 == 1) == !((a >> k) & 1 == 1)
        &&& (0u64 >> k) & 1 == 0
        &&& (0xFFFF_FFFF_FFFF_FFFFu64 >> k) & 1 == 1
        &&& ((a >> k) & 1 == 1) == ((a >> k) & 1 != 0)
        &&& (a ^ b == 0 ==> a == b)
    }) by (bit_vector)
        requires
            k < 64,
    ;
}

/// The word `1 << s` has bit `s` set and no other.
pub proof fn lemma_bit_single(s: int, i: int)
    requires
        0 <= s < 64,
        0 <= i < 64,
    ensures
        bit(1u64 << (s as u64), i) == (i == s),
{
    let k = i as u64;
    let t = s as u64;
    assert((((1u64 << t) >> k) & 1 == 1) == (k == t)) by (bit_vector)
        requires
            k < 64,
            t < 64,
    ;
}

/// Bits of a shifted word: after a shift towards the high end bit `i` comes from bit
/// `i - n`, after a shift towards the low end from bit `i + n`.
pub proof fn lemma_bit_shift(x: u64, n: int, i: int)
    requires
        0 <= n < 64,
        0 <= i < 64,
    ensures
        bit(x << (n as u64), i) == (i >= n && bit(x, i - n)),
        bit(x >> (n as u64), i) == (i + n < 64 && bit(x, i + n)),
{
    let k = i as u64;
    let m = n as u64;
    let lo: u64 = if i >= n { (i - n) as u64 } else { 0 };
    let hi: u64 = if i + n < 64 { (i + n) as u64 } else { 0 };
    assert({
        &&& k >= m ==> (((x << m) >> k) & 1 == 1) == ((x >> lo) & 1 == 1)
        &&& k < m ==> ((x << m) >> k) & 1 == 0
        &&& k + m < 64 ==> (((x >> m) >> k) & 1 == 1) == ((x >> hi) & 1 == 1)
        &&& k + m >= 64 ==> ((x >> m) >> k) & 1 == 0
    }) by (bit_vector)
        requires
            k < 64,
            m < 64,
            k >= m ==> lo == k - m,
            k + m < 64 ==> hi == k + m,
    ;
}

/// Masks that keep the `8 - k` lowest files, by `k`.
pub const LOW_FILES: [u64; 8] = [
    0xFFFF_FFFF_FFFF_FFFF,
    0x7F7F_7F7F_7F7F_7F7F,
    0x3F3F_3F3F_3F3F_3F3F,
    0x1F1F_1F1F_1F1F_1F1F,
    0x0F0F_0F0F_0F0F_0F0F,
    0x0707_0707_0707_0707,
    0x0303_0303_0303_0303,
    0x0101_0101_0101_0101,
];

/// Masks that keep the `8 - k` highest files, by `k`.
pub const HIGH_FILES: [u64; 8] = [
    0xFFFF_FFFF_FFFF_FFFF,
    0xFEFE_FEFE_FEFE_FEFE,
    0xFCFC_FCFC_FCFC_FCFC,
    0xF8F8_F8F8_F8F8_F8F8,
    0xF0F0_F0F0_F0F0_F0F0,
    0xE0E0_E0E0_E0E0_E0E0,
    0xC0C0_C0C0_C0C0_C0C0,
    0x8080_8080_8080_8080,
];

/// The mask that keeps the `8 - k` lowest files has bit `i` set exactly when file
/// `i % 8` is among them; the mask that keeps the `8 - k` highest files likewise.
pub proof fn lemma_bit_file_masks(k: int, i: int)
    requires
        0 <= k < 8,
        0 <= i < 64,
    ensures
        bit(LOW_FILES[k], i) == (i % 8 + k < 8),
        bit(HIGH_FILES[k], i) == (i % 8 >= k),
{
    let j = i as u64;
    let m = k as u64;
    let v = LOW_FILES[k];
    let w = HIGH_FILES[k];
    assert({
        &&& (((v >> j) & 1) == 1) == (j % 8 + m < 8)
        &&& (((w >> j) & 1) == 1) == (j % 8 >= m)
    }) by (bit_vector)
        requires
            j < 64,
            m < 8,
            m == 0 ==> v == 0xFFFF_FFFF_FFFF_FFFFu64 && w == 0xFFFF_FFFF_FFFF_FFFFu64,
            m == 1 ==> v == 0x7F7F_7F7F_7F7F_7F7Fu64 && w == 0xFEFE_FEFE_FEFE_FEFEu64,
            m == 2 ==> v == 0x3F3F_3F3F_3F3F_3F3Fu64 && w == 0xFCFC_FCFC_FCFC_FCFCu64,
            m == 3 ==> v == 0x1F1F_1F1F_1F1F_1F1Fu64 && w == 0xF8F8_F8F8_F8F8_F8F8u64,
            m == 4 ==> v == 0x0F0F_0F0F_0F0F_0F0Fu64 && w == 0xF0F0_F0F0_F0F0_F0F0u64,
            m == 5 ==> v == 0x0707_0707_0707_0707u64 && w == 0xE0E0_E0E0_E0E0_E0E0u64,
            m == 6 ==> v == 0x0303_0303_0303_0303u64 && w == 0xC0C0_C0C0_C0C0_C0C0u64,
            m == 7 ==> v == 0x0101_0101_0101_0101u64 && w == 0x8080_8080_8080_8080u64,
    ;
}

/// The masks of one rank and of one file.
pub proof fn lemma_bit_rank_file(r: int, f: int, i: int)
    requires
        0 <= r < 8,
        0 <= f < 8,
        0 <= i < 64,
    ensures
        bit(0xFFu64 << ((8 * r) as u64), i) == (i / 8 == r),
        bit(0x0101010101010101u64 << (f as u64), i) == (i % 8 == f),
{
    let j = i as u64;
    let a = r as u64;
    let b = f as u64;
    let s = (8 * r) as u64;
    assert({
        &&& ((((0xFFu64 << s) >> j) & 1) == 1) == (j / 8 == a)
        &&& ((((0x0101010101010101u64 << b) >> j) & 1) == 1) == (j % 8 == b)
    }) by (bit_vector)
        requires
            j < 64,
            a < 8,
            b < 8,
            s == 8 * a,
    ;
}

/// Subtracting one from a word and masking with the word clears its lowest set bit.
pub proof fn lemma_clear_lowest(x: u64)
    requires
        x != 0,
    ensures
        u64_trailing_zeros(x) < 64,
        x & ((x - 1) as u64) == x & !(1u64 << (u64_trailing_zeros(x) as u64)),
        x & ((x - 1) as u64) < x,
        bit(x, u64_trailing_zeros(x) as int),
        forall|j: int| 0 <= j < u64_trailing_zeros(x) ==> !bit(x, j),
{
    axiom_u64_trailing_zeros(x);
    let t = u64_trailing_zeros(x) as u64;
    let s = (64 - t) as u64;
    assert(x & ((x - 1) as u64) == x & !(1u64 << t) && x & ((x - 1) as u64) < x) by (bit_vector)
        requires
            x != 0,
            t < 64,
            s == 64 - t,
            (x >> t) & 1 == 1,
            x << s == 0,
    ;
    assert forall|j: int| 0 <= j < u64_trailing_zeros(x) implies !bit(x, j) by {
        let k = j as u64;
        assert((x >> k) & 1 == 0u64);
    }
}

/// The highest set bit of a non-zero word sits at `63 - leading_zeros`.
pub proof fn lemma_highest(x: u64)
    requires
        x != 0,
    ensures
        0 <= u64_leading_zeros(x) < 64,
        bit(x, 63 - u64_leading_zeros(x)),
        forall|j: int| 63 - u64_leading_zeros(x) < j < 64 ==> !bit(x, j),
{
    axiom_u64_leading_zeros(x);
    let z = u64_leading_zeros(x);
    lemma_bit_logic(x, x, 63 - z);
    assert forall|j: int| 63 - u64_leading_zeros(x) < j < 64 implies !bit(x, j) by {
        let k = j as u64;
        assert((x >> k) & 1 == 0u64);
    }
}

/// Two words with the same bits are the same word.
pub proof fn lemma_bits_equal(a: u64, b: u64)
    requires
        forall|i: int| 0 <= i < 64 ==> bit(a, i) == bit(b, i),
    ensures
        a == b,
{
    let x = a ^ b;
    if x != 0 {
        lemma_clear_lowest(x);
        let t = u64_trailing_zeros(x) as int;
        lemma_bit_logic(a, b, t);
        assert(bit(a, t) == bit(b, t));
    }
    lemma_bit_logic(a, b, 0);
}

/// For a non-empty submask `s` of `mask`, the next smaller submask is `(s - 1) & mask`:
/// every submask below `s` is at most that. No submask exceeds the mask, and the empty
/// word is a submask of every mask.
pub proof fn lemma_next_submask(mask: u64, s: u64, t: u64)
    ensures
        0 & mask == 0,
        mask & mask == mask,
        t & mask == t ==> t <= mask,
        s != 0 && s & mask == s ==> (((s - 1) as u64) & mask) & mask == ((s - 1) as u64) & mask,
        s != 0 && s & mask == s ==> ((s - 1) as u64) & mask < s,
        s != 0 && s & mask == s && t & mask == t && t < s ==> t <= ((s - 1) as u64) & mask,
{
    assert({
        &&& 0 & mask == 0
        &&& mask & mask == mask
        &&& t & mask == t ==> t <= mask
        &&& s != 0 && s & mask == s ==> (((s - 1) as u64) & mask) & mask == ((s - 1) as u64) & mask
        &&& s != 0 && s & mask == s ==> ((s - 1) as u64) & mask < s
        &&& s != 0 && s & mask == s && t & mask == t && t < s ==> t <= ((s - 1) as u64) & mask
    }) by (bit_vector);
}

/// The members of `s` below `n` in ascending order.
pub open spec fn sorted_members(s: Set<int>, n: int) -> Seq<int>
    decreases n,
{
    if n <= 0 {
        Seq::empty()
    } else if s.contains(n - 1) {
        sorted_members(s, n - 1).push(n - 1)
    } else {
        sorted_members(s, n - 1)
    }
}

/// Every entry of the sorted members is a member below the bound, and the entries
/// ascend.
pub proof fn lemma_sorted_members(s: Set<int>, n: int)
    requires
        0 <= n,
    ensures
        sorted_members(s, n).len() <= n,
        forall|i: int| 0 <= i < sorted_members(s, n).len() ==> 0 <= #[trigger] sorted_members(s, n)[i] < n && s.contains(
            sorted_members(s, n)[i],
        ),
        forall|i: int, j: int|
            0 <= i < j < sorted_members(s, n).len() ==> sorted_members(s, n)[i] < sorted_members(s, n)[j],
        forall|k: int| 0 <= k < n && s.contains(k) ==> sorted_members(s, n).contains(k),
    decreases n,
{
    if n > 0 {
        lemma_sorted_members(s, n - 1);
        let prev = sorted_members(s, n - 1);
        let cur = sorted_members(s, n);
        assert forall|k: int| 0 <= k < n && s.contains(k) implies cur.contains(k) by {
            if k < n - 1 {
                let i = choose|i: int| 0 <= i < prev.len() && prev[i] == k;
                assert(cur[i] == k);
            } else {
                assert(cur[cur.len() - 1] == k);
            }
        }
    }
}

/// An ascending list of exactly the members of `s` below `n` is the list of sorted
/// members.
pub proof fn lemma_sorted_unique(s: Set<int>, l: Seq<int>, n: int)
    requires
        0 <= n,
        forall|i: int| 0 <= i < l.len() ==> (0 <= #[trigger] l[i] && l[i] < n && s.contains(l[i])),
        forall|i: int, j: int| 0 <= i < j < l.len() ==> l[i] < l[j],
        forall|k: int| 0 <= k < n && s.contains(k) ==> exists|i: int| 0 <= i < l.len() && #[trigger] l[i] == k,
    ensures
        l == sorted_members(s, n),
    decreases n,
{
    if n == 0 {
        if l.len() > 0 {
            let x = l[0];
            assert(s.contains(x) && 0 <= x && x < n);
        }
        assert(l =~= sorted_members(s, n));
    } else if s.contains(n - 1) {
        let i = choose|i: int| 0 <= i < l.len() && #[trigger] l[i] == n - 1;
        assert(i == l.len() - 1) by {
            if i < l.len() - 1 {
                assert(l[i] < l[l.len() - 1]);
            }
        }
        let rest = l.drop_last();
        assert forall|a: int| 0 <= a < rest.len() implies 0 <= #[trigger] rest[a] < n - 1 && s.contains(rest[a]) by {
            assert(rest[a] == l[a]);
            assert(l[a] < l[i]);
        }
        assert forall|k: int| 0 <= k < n - 1 && s.contains(k) implies exists|a: int|
            0 <= a < rest.len() && #[trigger] rest[a] == k by {
            let a = choose|a: int| 0 <= a < l.len() && #[trigger] l[a] == k;
            assert(rest[a] == k);
        }
        lemma_sorted_unique(s, rest, n - 1);
        assert(l =~= rest.push(n - 1));
    } else {
        assert forall|a: int| 0 <= a < l.len() implies 0 <= #[trigger] l[a] < n - 1 && s.contains(l[a]) by {
            assert(s.contains(l[a]));
        }
        lemma_sorted_unique(s, l, n - 1);
    }
}

impl std::ops::Not for Bitboard {
    type Output = Bitboard;

    /// The squares of the board that are not in the set.
    fn not(self) -> (r: Bitboard) {
        Bitboard(!self.0)
    }
}

impl vstd::std_specs::ops::NotSpecImpl for Bitboard {
    open spec fn obeys_not_spec() -> bool {
        true
    }

    open spec fn not_req(self) -> bool {
        true
    }

    open spec fn not_spec(self) -> Bitboard {
        Bitboard(!self.0)
    }
}

impl View for Bitboard {
    type V = Set<int>;

    /// The indices of the squares in the set.
    open spec fn view(&self) -> Set<int> {
        Set::new(|i: int| bit(self.0, i))
    }
}

/// A bitboard's squares are at most 64 indices between 0 and 63.
pub proof fn lemma_view_finite(b: Bitboard)
    ensures
        b@.finite(),
        b@.len() <= 64,
        b@.subset_of(set_int_range(0, 64)),
        b.0 == 0 <==> b@.len() == 0,
{
    lemma_int_range(0, 64);
    lemma_len_subset(b@, set_int_range(0, 64));
    if b.0 == 0 {
        assert forall|i: int| !b@.contains(i) by {
            if 0 <= i < 64 {
                lemma_bit_logic(0, 0, i);
            }
        }
        assert(b@ =~= Set::empty());
    } else {
        lemma_clear_lowest(b.0);
        assert(b@.contains(u64_trailing_zeros(b.0) as int));
        if b@.len() == 0 {
            b@.lemma_len0_is_empty();
        }
    }
}

/// Two bitboards with the same squares are equal.
pub proof fn lemma_view_injective(a: Bitboard, b: Bitboard)
    requires
        a@ == b@,
    ensures
        a == b,
{
    assert forall|i: int| 0 <= i < 64 implies bit(a.0, i) == bit(b.0, i) by {
        assert(a@.contains(i) == bit(a.0, i));
        assert(b@.contains(i) == bit(b.0, i));
    }
    lemma_bits_equal(a.0, b.0);
}

impl Bitboard {
    /// Whether the square belongs to the set.
    pub open spec fn contains(self, sq: Square) -> bool {
        bit(self.0, sq.idx())
    }

    /// Number of squares in the set.
    pub open spec fn count(self) -> nat {
        self@.len()
    }

    /// The set moved by `df` files and `dr` ranks. Squares that would leave the board are
    /// dropped, never wrapped round an edge.
    pub open spec fn shifted(self, df: int, dr: int) -> Set<int> {
        Set::new(
            |t: int|
                0 <= t < 64 && on_board(t % 8 - df, t / 8 - dr) && bit(self.0, t - df - 8 * dr),
        )
    }

    /// The set that holds `sq` and nothing else.
    pub open spec fn spec_from_square(sq: Square) -> Bitboard {
        Bitboard(1u64 << (sq.idx() as u64))
    }

    /// The empty set.
    pub fn new_empty() -> (r: Bitboard)
        ensures
            r.0 == 0,
            r@ == Set::<int>::empty(),
    {
        let r = Bitboard(0);
        proof {
            assert forall|i: int| !r@.contains(i) by {
                if 0 <= i < 64 {
                    lemma_bit_logic(0, 0, i);
                }
            }
            assert(r@ =~= Set::<int>::empty());
        }
        r
    }

    /// The set of all 64 squares.
    pub fn new_full() -> (r: Bitboard)
        ensures
            r.0 == 0xFFFF_FFFF_FFFF_FFFF,
            r@ == set_int_range(0, 64),
    {
        let r = Bitboard(0xFFFF_FFFF_FFFF_FFFF);
        proof {
            assert forall|i: int| r@.contains(i) == set_int_range(0, 64).contains(i) by {
                if 0 <= i < 64 {
                    lemma_bit_logic(0, 0, i);
                }
            }
            assert(r@ =~= set_int_range(0, 64));
        }
        r
    }

    /// The set whose members are the set bits of `val`.
    pub fn new_from_u64(val: u64) -> (r: Bitboard)
        ensures
            r.0 == val,
    {
        Bitboard(val)
    }

    /// The set that holds `square` and nothing else.
    #[verifier::when_used_as_spec(spec_from_square)]
    pub fn new_from_square(square: Square) -> (r: Bitboard)
        ensures
            r == Self::spec_from_square(square),
            r@ == set![square.idx()],
    {
        let r = Bitboard(1u64 << (square.to_index() as u64));
        proof {
            assert forall|i: int| r@.contains(i) == (i == square.idx()) by {
                if 0 <= i < 64 {
                    lemma_bit_single(square.idx(), i);
                }
            }
            assert(r@ =~= set![square.idx()]);
        }
        r
    }

    /// Adds a square to the set.
    pub fn set_square(&mut self, square: Square)
        ensures
            final(self).0 == old(self).0 | (1u64 << (square.idx() as u64)),
            final(self)@ == old(self)@.insert(square.idx()),
    {
        let ghost before = *self;
        self.0 = self.0 | (1u64 << (square.to_index() as u64));
        proof {
            assert forall|i: int| self@.contains(i) == before@.insert(square.idx()).contains(i) by {
                if 0 <= i < 64 {
                    lemma_bit_logic(before.0, 1u64 << (square.idx() as u64), i);
                    lemma_bit_single(square.idx(), i);
                }
            }
            assert(self@ =~= before@.insert(square.idx()));
        }
    }

    /// Takes a square out of the set.
    pub fn clear_square(&mut self, square: Square)
        ensures
            final(self).0 == old(self).0 & !(1u64 << (square.idx() as u64)),
            final(self)@ == old(self)@.remove(square.idx()),
    {
        let ghost before = *self;
        self.0 = self.0 & !(1u64 << (square.to_index() as u64));
        proof {
            assert forall|i: int| self@.contains(i) == before@.remove(square.idx()).contains(i) by {
                if 0 <= i < 64 {
                    lemma_bit_logic(before.0, 1u64 << (square.idx() as u64), i);
                    lemma_bit_single(square.idx(), i);
                }
            }
            assert(self@ =~= before@.remove(square.idx()));
        }
    }

    /// Whether the square belongs to the set.
    pub fn is_occupied(&self, square: Square) -> (r: bool)
        ensures
            r == self.contains(square),
            r == self@.contains(square.idx()),
    {
        (self.0 >> (square.to_index() as u64)) & 1 == 1
    }

    /// The member with the smallest index. The set must not be empty.
    pub fn get_ls_square(&self) -> (r: Square)
        requires
            self.0 != 0,
        ensures
            self.contains(r),
            r.idx() == u64_trailing_zeros(self.0),
            forall|j: int| self@.contains(j) ==> r.idx() <= j,
    {
        proof {
            lemma_clear_lowest(self.0);
        }
        Square::from_index(self.0.trailing_zeros() as usize)
    }

    /// Removes the member with the smallest index and returns it. The set must not be empty.
    pub fn pop_ls_square(&mut self) -> (r: Square)
        requires
            old(self).0 != 0,
        ensures
            old(self).contains(r),
            forall|j: int| old(self)@.contains(j) ==> r.idx() <= j,
            final(self)@ == old(self)@.remove(r.idx()),
            final(self).0 == old(self).0 & !(1u64 << (r.idx() as u64)),
            final(self).0 < old(self).0,
    {
        let ghost before = *self;
        let lsb = self.get_ls_square();
        proof {
            lemma_clear_lowest(self.0);
        }
        self.0 = self.0 & (self.0 - 1);
        proof {
            assert forall|i: int| self@.contains(i) == before@.remove(lsb.idx()).contains(i) by {
                if 0 <= i < 64 {
                    lemma_bit_logic(before.0, 1u64 << (lsb.idx() as u64), i);
                    lemma_bit_single(lsb.idx(), i);
                }
            }
            assert(self@ =~= before@.remove(lsb.idx()));
        }
        lsb
    }

    /// The member with the largest index. The set must not be empty.
    pub fn get_ms_square(&self) -> (r: Square)
        requires
            self.0 != 0,
        ensures
            self.contains(r),
            r.idx() == 63 - u64_leading_zeros(self.0),
            forall|j: int| self@.contains(j) ==> j <= r.idx(),
    {
        proof {
            lemma_highest(self.0);
        }
        Square::from_index(63 - self.0.leading_zeros() as usize)
    }

    /// Removes the member with the largest index and returns it. The set must not be empty.
    pub fn pop_ms_square(&mut self) -> (r: Square)
        requires
            old(self).0 != 0,
        ensures
            old(self).contains(r),
            forall|j: int| old(self)@.contains(j) ==> j <= r.idx(),
            final(self)@ == old(self)@.remove(r.idx()),
            final(self).0 == old(self).0 & !(1u64 << (r.idx() as u64)),
    {
        let msb = self.get_ms_square();
        self.clear_square(msb);
        msb
    }

    /// Number of squares in the set.
    pub fn count_squares(&self) -> (r: u8)
        ensures
            r == self.count(),
            r <= 64,
    {
        let mut rest = *self;
        let mut n: u8 = 0;
        proof {
            lemma_view_finite(rest);
        }
        while rest.0 != 0
            invariant
                rest@.finite(),
                self@.finite(),
                n + rest@.len() == self@.len(),
                self@.len() <= 64,
            decreases rest.0,
        {
            let ghost prev = rest;
            proof {
                lemma_view_finite(rest);
            }
            let sq = rest.pop_ls_square();
            proof {
                assert(prev@.contains(sq.idx()));
                lemma_view_finite(rest);
            }
            n = n + 1;
        }
        proof {
            lemma_view_finite(rest);
        }
        n
    }

    /// The members in ascending order of index.
    pub fn get_occupied_squares(&self) -> (r: Vec<Square>)
        ensures
            r@.len() == self.count(),
            forall|i: int, j: int| 0 <= i < j < r@.len() ==> r@[i].idx() < r@[j].idx(),
            forall|i: int| 0 <= i < r@.len() ==> self.contains(#[trigger] r@[i]),
            forall|k: int| self@.contains(k) ==> exists|i: int| 0 <= i < r@.len() && #[trigger] r@[i].idx() == k,
            r@.len() == sorted_members(self@, 64).len(),
            forall|i: int| 0 <= i < r@.len() ==> (#[trigger] r@[i]).idx() == sorted_members(self@, 64)[i],
    {
        let mut squares: Vec<Square> = Vec::new();
        let mut bb = *self;
        proof {
            lemma_view_finite(bb);
        }
        while bb.0 != 0
            invariant
                bb@.finite(),
                self@.finite(),
                bb@.subset_of(self@),
                squares@.len() + bb@.len() == self@.len(),
                forall|i: int, j: int| 0 <= i < j < squares@.len() ==> squares@[i].idx() < squares@[j].idx(),
                forall|i: int| 0 <= i < squares@.len() ==> self.contains(#[trigger] squares@[i]),
                forall|i: int, j: int| 0 <= i < squares@.len() && bb@.contains(j) ==> squares@[i].idx() < j,
                forall|k: int| self@.contains(k) ==> bb@.contains(k) || exists|i: int| 0 <= i < squares@.len() && #[trigger] squares@[i].idx() == k,
            decreases bb.0,
        {
            let ghost prev = bb;
            let ghost done = squares@;
            let sq = bb.pop_ls_square();
            squares.push(sq);
            proof {
                assert(prev@.contains(sq.idx()));
                lemma_view_finite(bb);
                assert forall|k: int| self@.contains(k) implies bb@.contains(k) || exists|i: int| 0 <= i < squares@.len() && #[trigger] squares@[i].idx() == k by {
                    if !bb@.contains(k) {
                        if prev@.contains(k) {
                            assert(k == sq.idx());
                            assert(squares@[done.len() as int].idx() == k);
                        } else {
                            let i = choose|i: int| 0 <= i < done.len() && #[trigger] done[i].idx() == k;
                            assert(squares@[i].idx() == k);
                        }
                    }
                }
            }
        }
        proof {
            lemma_view_finite(bb);
            let l = Seq::new(squares@.len(), |i: int| squares@[i].idx());
            assert forall|i: int| 0 <= i < l.len() implies 0 <= #[trigger] l[i] < 64 && self@.contains(l[i]) by {
                assert(self.contains(squares@[i]));
            }
            assert forall|k: int| 0 <= k < 64 && self@.contains(k) implies exists|i: int|
                0 <= i < l.len() && #[trigger] l[i] == k by {
                if bb@.contains(k) {
                    bb@.lemma_len0_is_empty();
                }
                let i = choose|i: int| 0 <= i < squares@.len() && #[trigger] squares@[i].idx() == k;
                assert(l[i] == k);
            }
            lemma_sorted_unique(self@, l, 64);
            assert forall|i: int| 0 <= i < squares@.len() implies (#[trigger] squares@[i]).idx() == sorted_members(
                self@,
                64,
            )[i] by {
                assert(l[i] == squares@[i].idx());
            }
        }
        squares
    }

    /// Whether the set has no member.
    pub fn is_empty(&self) -> (r: bool)
        ensures
            r == (self.0 == 0),
            r == (self@.len() == 0),
    {
        proof {
            lemma_view_finite(*self);
        }
        self.0 == 0
    }

    /// The mask of one rank.
    pub open spec fn spec_rank_mask(rank: int) -> Bitboard {
        Bitboard(0xFFu64 << ((8 * rank) as u64))
    }

    /// The mask of one file.
    pub open spec fn spec_file_mask(file: int) -> Bitboard {
        Bitboard(0x0101010101010101u64 << (file as u64))
    }

    /// All squares of a rank.
    pub fn rank_mask(rank: Rank) -> (r: Bitboard)
        ensures
            r == Self::spec_rank_mask(rank.idx()),
            forall|i: int| r@.contains(i) <==> 0 <= i < 64 && i / 8 == rank.idx(),
    {
        let r = Bitboard(0xFFu64 << ((8 * rank.to_index()) as u64));
        proof {
            assert forall|i: int| r@.contains(i) <==> 0 <= i < 64 && i / 8 == rank.idx() by {
                if 0 <= i < 64 {
                    lemma_bit_rank_file(rank.idx(), 0, i);
                }
            }
        }
        r
    }

    /// All squares of a file.
    pub fn file_mask(file: File) -> (r: Bitboard)
        ensures
            r == Self::spec_file_mask(file.idx()),
            forall|i: int| r@.contains(i) <==> 0 <= i < 64 && i % 8 == file.idx(),
    {
        let r = Bitboard(0x0101010101010101u64 << (file.to_index() as u64));
        proof {
            assert forall|i: int| r@.contains(i) <==> 0 <= i < 64 && i % 8 == file.idx() by {
                if 0 <= i < 64 {
                    lemma_bit_rank_file(0, file.idx(), i);
                }
            }
        }
        r
    }

    /// The members on one rank.
    pub fn get_occ_rank(&self, rank: Rank) -> (r: Bitboard)
        ensures
            r.0 == self.0 & Self::spec_rank_mask(rank.idx()).0,
            forall|i: int| r@.contains(i) <==> self@.contains(i) && i / 8 == rank.idx(),
    {
        let m = Self::rank_mask(rank);
        let r = self.intersect(m);
        proof {
            assert forall|i: int| r@.contains(i) <==> self@.contains(i) && i / 8 == rank.idx() by {
                assert(r@.contains(i) == (self@.contains(i) && m@.contains(i)));
            }
        }
        r
    }

    /// The members on one file.
    pub fn get_occ_file(&self, file: File) -> (r: Bitboard)
        ensures
            r.0 == self.0 & Self::spec_file_mask(file.idx()).0,
            forall|i: int| r@.contains(i) <==> self@.contains(i) && i % 8 == file.idx(),
    {
        let m = Self::file_mask(file);
        let r = self.intersect(m);
        proof {
            assert forall|i: int| r@.contains(i) <==> self@.contains(i) && i % 8 == file.idx() by {
                assert(r@.contains(i) == (self@.contains(i) && m@.contains(i)));
            }
        }
        r
    }

    /// The table slot a magic number sends an occupancy to: the top `shift` bits of the
    /// wrapping product of the masked occupancy and the magic number.
    pub open spec fn spec_magic_index(self, mask: Bitboard, magic: u64, shift: u64) -> int {
        (vstd::wrapping::u64_specs::wrapping_mul(self.0 & mask.0, magic) >> ((64 - shift) as u64)) as int
    }

    /// Computes the table slot a magic number sends this occupancy to. `shift` is the
    /// number of index bits, between 1 and 32.
    pub fn get_magic_index(&self, mask: &Bitboard, magic: &u64, shift: &u64) -> (r: usize)
        requires
            1 <= *shift <= 32,
        ensures
            r == self.spec_magic_index(*mask, *magic, *shift),
            r < (1u64 << *shift),
    {
        let product: u64 = (self.0 & mask.0).wrapping_mul(*magic);
        let s: u64 = *shift;
        let d: u64 = 64 - s;
        let idx: u64 = product >> d;
        proof {
            assert(product >> d < (1u64 << s) && (1u64 << s) <= 0x1_0000_0000u64) by (bit_vector)
                requires
                    1 <= s <= 32,
                    d == 64 - s,
            ;
        }
        idx as usize
    }

    /// Union of two sets.
    pub fn combine(&self, other: Bitboard) -> (r: Bitboard)
        ensures
            r.0 == self.0 | other.0,
            r@ == self@.union(other@),
    {
        let r = Bitboard(self.0 | other.0);
        proof {
            assert forall|i: int| r@.contains(i) == self@.union(other@).contains(i) by {
                if 0 <= i < 64 {
                    lemma_bit_logic(self.0, other.0, i);
                }
            }
            assert(r@ =~= self@.union(other@));
        }
        r
    }

    /// Intersection of two sets.
    pub fn intersect(&self, other: Bitboard) -> (r: Bitboard)
        ensures
            r.0 == self.0 & other.0,
            r@ == self@.intersect(other@),
    {
        let r = Bitboard(self.0 & other.0);
        proof {
            assert forall|i: int| r@.contains(i) == self@.intersect(other@).contains(i) by {
                if 0 <= i < 64 {
                    lemma_bit_logic(self.0, other.0, i);
                }
            }
            assert(r@ =~= self@.intersect(other@));
        }
        r
    }

    /// The members of this set that are not in `other`.
    pub fn diff(&self, other: Bitboard) -> (r: Bitboard)
        ensures
            r.0 == self.0 & !other.0,
            r@ == self@.difference(other@),
    {
        let r = Bitboard(self.0 & !other.0);
        proof {
            assert forall|i: int| r@.contains(i) == self@.difference(other@).contains(i) by {
                if 0 <= i < 64 {
                    lemma_bit_logic(self.0, other.0, i);
                }
            }
            assert(r@ =~= self@.difference(other@));
        }
        r
    }

    /// The squares of the board that are not in this set.
    pub fn invert(&self) -> (r: Bitboard)
        ensures
            r.0 == !self.0,
            r@ == set_int_range(0, 64).difference(self@),
    {
        let r = Bitboard(!self.0);
        proof {
            assert forall|i: int| r@.contains(i) == set_int_range(0, 64).difference(self@).contains(i) by {
                if 0 <= i < 64 {
                    lemma_bit_logic(self.0, self.0, i);
                }
            }
            assert(r@ =~= set_int_range(0, 64).difference(self@));
        }
        r
    }

    /// Takes `from` out of the set, then puts `to` in.
    pub fn make_move(&mut self, from: Square, to: Square)
        ensures
            final(self)@ == old(self)@.remove(from.idx()).insert(to.idx()),
            final(self).0 == (old(self).0 & !(1u64 << (from.idx() as u64))) | (1u64 << (to.idx() as u64)),
    {
        self.clear_square(from);
        self.set_square(to);
    }

    /// Moves every member `num_sq` ranks up; members that leave the board are dropped.
    pub fn shift_up(&self, num_sq: u8) -> (r: Bitboard)
        ensures
            r@ == self.shifted(0, num_sq as int),
            num_sq < 8 ==> r.0 == self.0 << ((8 * num_sq) as u64),
            num_sq >= 8 ==> r.0 == 0,
    {
        if num_sq >= 8 {
            let r = Bitboard::new_empty();
            assert(r@ =~= self.shifted(0, num_sq as int));
            return r;
        }
        let n: u64 = 8 * (num_sq as u64);
        let r = Bitboard(self.0 << n);
        proof {
            assert forall|t: int| r@.contains(t) == self.shifted(0, num_sq as int).contains(t) by {
                if 0 <= t < 64 {
                    lemma_bit_shift(self.0, n as int, t);
                }
            }
            assert(r@ =~= self.shifted(0, num_sq as int));
        }
        r
    }

    /// Moves every member `num_sq` ranks down; members that leave the board are dropped.
    pub fn shift_down(&self, num_sq: u8) -> (r: Bitboard)
        ensures
            r@ == self.shifted(0, -(num_sq as int)),
            num_sq < 8 ==> r.0 == self.0 >> ((8 * num_sq) as u64),
            num_sq >= 8 ==> r.0 == 0,
    {
        if num_sq >= 8 {
            let r = Bitboard::new_empty();
            assert(r@ =~= self.shifted(0, -(num_sq as int)));
            return r;
        }
        let n: u64 = 8 * (num_sq as u64);
        let r = Bitboard(self.0 >> n);
        proof {
            assert forall|t: int| r@.contains(t) == self.shifted(0, -(num_sq as int)).contains(t) by {
                if 0 <= t < 64 {
                    lemma_bit_shift(self.0, n as int, t);
                }
            }
            assert(r@ =~= self.shifted(0, -(num_sq as int)));
        }
        r
    }

    /// Moves every member `num_sq` files towards the a-file; members that would cross the
    /// edge are dropped.
    pub fn shift_left(&self, num_sq: u8) -> (r: Bitboard)
        ensures
            r@ == self.shifted(-(num_sq as int), 0),
            num_sq < 8 ==> r.0 == (self.0 >> (num_sq as u64)) & LOW_FILES[num_sq as int],
            num_sq >= 8 ==> r.0 == 0,
    {
        if num_sq >= 8 {
            let r = Bitboard::new_empty();
            assert(r@ =~= self.shifted(-(num_sq as int), 0));
            return r;
        }
        let k: u64 = num_sq as u64;
        let keep: u64 = LOW_FILES[num_sq as usize];
        let r = Bitboard((self.0 >> k) & keep);
        proof {
            assert forall|t: int| r@.contains(t) == self.shifted(-(num_sq as int), 0).contains(t) by {
                if 0 <= t < 64 {
                    lemma_bit_shift(self.0, k as int, t);
                    lemma_bit_file_masks(k as int, t);
                    lemma_bit_logic(self.0 >> k, keep, t);
                }
            }
            assert(r@ =~= self.shifted(-(num_sq as int), 0));
        }
        r
    }

    /// Moves every member `num_sq` files towards the h-file; members that would cross the
    /// edge are dropped.
    pub fn shift_right(&self, num_sq: u8) -> (r: Bitboard)
        ensures
            r@ == self.shifted(num_sq as int, 0),
            num_sq < 8 ==> r.0 == (self.0 << (num_sq as u64)) & HIGH_FILES[num_sq as int],
            num_sq >= 8 ==> r.0 == 0,
    {
        if num_sq >= 8 {
            let r = Bitboard::new_empty();
            assert(r@ =~= self.shifted(num_sq as int, 0));
            return r;
        }
        let k: u64 = num_sq as u64;
        let keep: u64 = HIGH_FILES[num_sq as usize];
        let r = Bitboard((self.0 << k) & keep);
        proof {
            assert forall|t: int| r@.contains(t) == self.shifted(num_sq as int, 0).contains(t) by {
                if 0 <= t < 64 {
                    lemma_bit_shift(self.0, k as int, t);
                    lemma_bit_file_masks(k as int, t);
                    lemma_bit_logic(self.0 << k, keep, t);
                }
            }
            assert(r@ =~= self.shifted(num_sq as int, 0));
        }
        r
    }

    /// Moves the set by `df` files and `dr` ranks, each between -8 and 8; members that
    /// would leave the board are dropped.
    pub fn shift_by(&self, df: i8, dr: i8) -> (r: Bitboard)
        requires
            -8 <= df <= 8,
            -8 <= dr <= 8,
        ensures
            r@ == self.shifted(df as int, dr as int),
    {
        let v = if dr >= 0 {
            self.shift_up(dr as u8)
        } else {
            self.shift_down((-dr) as u8)
        };
        let r = if df >= 0 {
            v.shift_right(df as u8)
        } else {
            v.shift_left((-df) as u8)
        };
        proof {
            assert forall|t: int| r@.contains(t) == self.shifted(df as int, dr as int).contains(t) by {
                if 0 <= t < 64 && 0 <= t % 8 - df < 8 {
                    let u = t - df;
                    assert(u / 8 == t / 8);
                    assert(u % 8 == t % 8 - df);
                    assert(v@.contains(u) == self.shifted(0, dr as int).contains(u));
                }
            }
            assert(r@ =~= self.shifted(df as int, dr as int));
        }
        r
    }

    /// One step up and one to the left, `num_sq` times.
    pub fn shift_up_left(&self, num_sq: u8) -> (r: Bitboard)
        ensures
            r@ == self.shifted(-(num_sq as int), num_sq as int),
    {
        if num_sq >= 8 {
            let r = Bitboard::new_empty();
            assert(r@ =~= self.shifted(-(num_sq as int), num_sq as int));
            return r;
        }
        self.shift_by(-(num_sq as i8), num_sq as i8)
    }

    /// One step up and one to the right, `num_sq` times.
    pub fn shift_up_right(&self, num_sq: u8) -> (r: Bitboard)
        ensures
            r@ == self.shifted(num_sq as int, num_sq as int),
    {
        if num_sq >= 8 {
            let r = Bitboard::new_empty();
            assert(r@ =~= self.shifted(num_sq as int, num_sq as int));
            return r;
        }
        self.shift_by(num_sq as i8, num_sq as i8)
    }

    /// One step down and one to the left, `num_sq` times.
    pub fn shift_down_left(&self, num_sq: u8) -> (r: Bitboard)
        ensures
            r@ == self.shifted(-(num_sq as int), -(num_sq as int)),
    {
        if num_sq >= 8 {
            let r = Bitboard::new_empty();
            assert(r@ =~= self.shifted(-(num_sq as int), -(num_sq as int)));
            return r;
        }
        self.shift_by(-(num_sq as i8), -(num_sq as i8))
    }

    /// One step down and one to the right, `num_sq` times.
    pub fn shift_down_right(&self, num_sq: u8) -> (r: Bitboard)
        ensures
            r@ == self.shifted(num_sq as int, -(num_sq as int)),
    {
        if num_sq >= 8 {
            let r = Bitboard::new_empty();
            assert(r@ =~= self.shifted(num_sq as int, -(num_sq as int)));
            return r;
        }
        self.shift_by(num_sq as i8, -(num_sq as i8))
    }

    /// The squares that pawns of `color` standing on the members attack: one rank ahead,
    /// one file to either side.
    pub open spec fn spec_pawn_attack(self, color: Color) -> Set<int> {
        let dr = if color == Color::White { 1int } else { -1int };
        self.shifted(-1, dr).union(self.shifted(1, dr))
    }

    /// The squares attacked by pawns of `color` on the members.
    pub fn shift_pawn_attack(&self, color: Color) -> (r: Bitboard)
        ensures
            r@ == self.spec_pawn_attack(color),
    {
        match color {
            Color::White => self.shift_up_left(1).combine(self.shift_up_right(1)),
            Color::Black => self.shift_down_left(1).combine(self.shift_down_right(1)),
        }
    }

    /// The squares a knight's leap away from some member.
    pub open spec fn spec_knight_attack(self) -> Set<int> {
        self.shifted(-1, 2).union(self.shifted(1, 2)).union(self.shifted(-1, -2)).union(
            self.shifted(1, -2),
        ).union(self.shifted(-2, 1)).union(self.shifted(-2, -1)).union(self.shifted(2, 1)).union(
            self.shifted(2, -1),
        )
    }

    /// The squares attacked by knights on the members.
    pub fn shift_knight_attack(&self) -> (r: Bitboard)
        ensures
            r@ == self.spec_knight_attack(),
    {
        let ul = self.shift_by(-1, 2);
        let ur = self.shift_by(1, 2);
        let dl = self.shift_by(-1, -2);
        let dr = self.shift_by(1, -2);
        let lu = self.shift_by(-2, 1);
        let ld = self.shift_by(-2, -1);
        let ru = self.shift_by(2, 1);
        let rd = self.shift_by(2, -1);

        ul.combine(ur).combine(dl).combine(dr).combine(lu).combine(ld).combine(ru).combine(rd)
    }

    /// The squares next to some member, in any of the eight directions.
    pub open spec fn spec_king_attack(self) -> Set<int> {
        self.shifted(0, 1).union(self.shifted(0, -1)).union(self.shifted(-1, 0)).union(
            self.shifted(1, 0),
        ).union(self.shifted(-1, 1)).union(self.shifted(1, 1)).union(self.shifted(-1, -1)).union(
            self.shifted(1, -1),
        )
    }

    /// The squares attacked by kings on the members.
    pub fn shift_king_attack(&self) -> (r: Bitboard)
        ensures
            r@ == self.spec_king_attack(),
    {
        let up = self.shift_up(1);
        let down = self.shift_down(1);
        let left = self.shift_left(1);
        let right = self.shift_right(1);
        let ul = self.shift_up_left(1);
        let ur = self.shift_up_right(1);
        let dl = self.shift_down_left(1);
        let dr = self.shift_down_right(1);

        up.combine(down).combine(left).combine(right).combine(ul).combine(ur).combine(dl).combine(dr)
    }

    /// Whether every member of `self` is a member of `mask`.
    pub open spec fn is_submask_of(self, mask: Bitboard) -> bool {
        self.0 & mask.0 == self.0
    }

    /// The subset of `mask` that comes next below this one in numeric order.
    pub open spec fn spec_next_subset(self, mask: Bitboard) -> Bitboard {
        Bitboard(((self.0 - 1) as u64) & mask.0)
    }

    /// Steps from one subset of `mask` to the next smaller one. `self` must be a non-empty
    /// subset of `mask`.
    pub fn next_subset(&self, mask: Bitboard) -> (r: Bitboard)
        requires
            self.0 != 0,
            self.is_submask_of(mask),
        ensures
            r == self.spec_next_subset(mask),
            r.is_submask_of(mask),
            r.0 < self.0,
            forall|t: Bitboard| t.is_submask_of(mask) && t.0 < self.0 ==> t.0 <= r.0,
    {
        let r = Bitboard((self.0 - 1) & mask.0);
        proof {
            lemma_next_submask(mask.0, self.0, 0);
            assert forall|t: Bitboard| t.is_submask_of(mask) && t.0 < self.0 implies t.0 <= r.0 by {
                lemma_next_submask(mask.0, self.0, t.0);
            }
        }
        r
    }

    /// All subsets of this set, from the set itself down to the empty set in descending
    /// numeric order. There are two to the number of squares of them.
    pub fn get_occupancies(&self) -> (r: Vec<Bitboard>)
        ensures
            r@.len() == pow2(self.count()),
            r@.len() >= 1,
            r@[0] == *self,
            r@[r@.len() - 1].0 == 0,
            forall|i: int| 0 <= i < r@.len() ==> (#[trigger] r@[i]).is_submask_of(*self),
            forall|i: int, j: int| 0 <= i < j < r@.len() ==> r@[i].0 > r@[j].0,
            forall|t: Bitboard| t.is_submask_of(*self) ==> exists|i: int| 0 <= i < r@.len() && #[trigger] r@[i] == t,
    {
        iterate_subsets(*self)
    }
}

/// The subsets of a set of squares.
pub open spec fn submasks(mask: Bitboard) -> Set<Bitboard> {
    Set::new(|t: Bitboard| t.is_submask_of(mask))
}

/// How the subsets of a word with bit `t` set split into those without the bit, which
/// are the subsets of the word without it, and those with it.
pub proof fn lemma_submask_split(m: u64, t: u64, x: u64, y: u64)
    requires
        t < 64,
        (m >> t) & 1 == 1,
    ensures
        ({
            let b = 1u64 << t;
            let r = m & !b;
            &&& (x & 0 == x) == (x == 0)
            &&& x & r == x ==> x & m == x && x & b == 0 && (x | b) & m == (x | b) && (x | b) & b != 0
            &&& x & m == x && x & b == 0 ==> x & r == x
            &&& x & m == x && x & b != 0 ==> (x & !b) & r == (x & !b) && (x & !b) | b == x
            &&& x & b == 0 && y & b == 0 && x | b == y | b ==> x == y
        }),
{
    assert({
        let b = 1u64 << t;
        let r = m & !b;
        &&& (x & 0 == x) == (x == 0)
        &&& x & r == x ==> x & m == x && x & b == 0 && (x | b) & m == (x | b) && (x | b) & b != 0
        &&& x & m == x && x & b == 0 ==> x & r == x
        &&& x & m == x && x & b != 0 ==> (x & !b) & r == (x & !b) && (x & !b) | b == x
        &&& x & b == 0 && y & b == 0 && x | b == y | b ==> x == y
    }) by (bit_vector)
        requires
            t < 64,
            (m >> t) & 1 == 1,
    ;
}

/// A set of `n` squares has two to the `n` subsets.
pub proof fn lemma_submask_count(mask: Bitboard)
    ensures
        submasks(mask).finite(),
        submasks(mask).len() == pow2(mask@.len()),
    decreases mask.0,
{
    lemma_view_finite(mask);
    lemma2_to64();
    if mask.0 == 0 {
        assert forall|x: Bitboard| submasks(mask).contains(x) <==> x == Bitboard(0u64) by {
            lemma_bit_logic(0, 0, 0);
            assert(bit(0xFFFF_FFFF_FFFF_FFFF, 0));
            lemma_submask_split(0xFFFF_FFFF_FFFF_FFFF, 0, x.0, 0);
        }
        assert(submasks(mask) =~= set![Bitboard(0u64)]);
    } else {
        lemma_clear_lowest(mask.0);
        let t = u64_trailing_zeros(mask.0) as u64;
        let b: u64 = 1u64 << t;
        let rest = Bitboard(mask.0 & ((mask.0 - 1) as u64));
        lemma_submask_count(rest);
        let lower = submasks(rest);
        let f = |x: Bitboard| Bitboard(x.0 | b);
        let upper = lower.map(f);
        assert(injective_on(f, lower)) by {
            assert forall|x: Bitboard, y: Bitboard| lower.contains(x) && lower.contains(y) && #[trigger] f(x) == #[trigger] f(y) implies x == y by {
                lemma_submask_split(mask.0, t, x.0, y.0);
                lemma_submask_split(mask.0, t, y.0, x.0);
            }
        }
        lemma_map_size(lower, upper, f);
        assert forall|x: Bitboard| submasks(mask).contains(x) <==> (lower + upper).contains(x) by {
            lemma_submask_split(mask.0, t, x.0, 0);
            if submasks(mask).contains(x) && x.0 & b != 0 {
                let y = Bitboard(x.0 & !b);
                assert(lower.contains(y));
                assert(f(y) == x);
                assert(upper.contains(x));
            }
            if upper.contains(x) {
                let y = choose|y: Bitboard| lower.contains(y) && f(y) == x;
                lemma_submask_split(mask.0, t, y.0, 0);
            }
        }
        assert(submasks(mask) =~= lower + upper);
        assert(lower.disjoint(upper)) by {
            assert forall|x: Bitboard| !(lower.contains(x) && upper.contains(x)) by {
                lemma_submask_split(mask.0, t, x.0, 0);
                if upper.contains(x) {
                    let y = choose|y: Bitboard| lower.contains(y) && f(y) == x;
                    lemma_submask_split(mask.0, t, y.0, 0);
                }
            }
        }
        lemma_set_disjoint_lens(lower, upper);
        assert(rest@ =~= mask@.remove(t as int)) by {
            assert forall|i: int| rest@.contains(i) == mask@.remove(t as int).contains(i) by {
                if 0 <= i < 64 {
                    lemma_bit_logic(mask.0, b, i);
                    lemma_bit_single(t as int, i);
                }
            }
        }
        lemma_pow2_unfold(mask@.len());
    }
}

/// All subsets of `mask`, from the mask itself down to the empty set in descending
/// numeric order: each is the one before it less one, cut back to the mask. There are
/// two to the number of squares of them.
pub fn iterate_subsets(mask: Bitboard) -> (r: Vec<Bitboard>)
    ensures
        r@.len() == pow2(mask.count()),
        r@.len() >= 1,
        r@[0] == mask,
        r@[r@.len() - 1].0 == 0,
        forall|i: int| 0 <= i < r@.len() ==> (#[trigger] r@[i]).is_submask_of(mask),
        forall|i: int, j: int| 0 <= i < j < r@.len() ==> r@[i].0 > r@[j].0,
        forall|t: Bitboard| t.is_submask_of(mask) ==> exists|i: int| 0 <= i < r@.len() && #[trigger] r@[i] == t,
{
    let mut subsets: Vec<Bitboard> = Vec::new();
    let mut subset = mask;
    proof {
        lemma_next_submask(mask.0, 0, 0);
        assert forall|t: Bitboard| t.is_submask_of(mask) implies t.0 <= mask.0 by {
            lemma_next_submask(mask.0, 0, t.0);
        }
    }
    subsets.push(subset);
    proof {
        assert forall|t: Bitboard| t.is_submask_of(mask) && t.0 >= subset.0 implies exists|i: int| 0 <= i < subsets@.len() && #[trigger] subsets@[i] == t by {
            assert(subsets@[0] == t);
        }
    }
    while subset.0 != 0
        invariant
            subsets@.len() >= 1,
            subsets@[0] == mask,
            subsets@[subsets@.len() - 1] == subset,
            subset.is_submask_of(mask),
            forall|i: int| 0 <= i < subsets@.len() ==> (#[trigger] subsets@[i]).is_submask_of(mask),
            forall|i: int, j: int| 0 <= i < j < subsets@.len() ==> subsets@[i].0 > subsets@[j].0,
            forall|t: Bitboard| t.is_submask_of(mask) && t.0 >= subset.0 ==> exists|i: int| 0 <= i < subsets@.len() && #[trigger] subsets@[i] == t,
        decreases subset.0,
    {
        let ghost prev = subset;
        let ghost done = subsets@;
        subset = subset.next_subset(mask);
        subsets.push(subset);
        proof {
            assert forall|t: Bitboard| t.is_submask_of(mask) && t.0 >= subset.0 implies exists|i: int| 0 <= i < subsets@.len() && #[trigger] subsets@[i] == t by {
                if t.0 >= prev.0 {
                    let i = choose|i: int| 0 <= i < done.len() && #[trigger] done[i] == t;
                    assert(subsets@[i] == t);
                } else {
                    assert(t.0 == subset.0);
                    assert(subsets@[done.len() as int] == t);
                }
            }
        }
    }
    proof {
        let all = subsets@;
        assert(all.no_duplicates()) by {
            assert forall|i: int, j: int| 0 <= i < all.len() && 0 <= j < all.len() && i != j implies all[i] != all[j] by {
                if i < j {
                    assert(all[i].0 > all[j].0);
                } else {
                    assert(all[j].0 > all[i].0);
                }
            }
        }
        assert forall|t: Bitboard| all.to_set().contains(t) <==> submasks(mask).contains(t) by {
            if all.to_set().contains(t) {
                let i = choose|i: int| 0 <= i < all.len() && all[i] == t;
                assert(all[i].is_submask_of(mask));
            }
            if t.is_submask_of(mask) {
                let i = choose|i: int| 0 <= i < all.len() && #[trigger] all[i] == t;
                assert(all.contains(all[i]));
            }
        }
        assert(all.to_set() =~= submasks(mask));
        all.unique_seq_to_set();
        lemma_submask_count(mask);
    }
    subsets
}

} // verus!
