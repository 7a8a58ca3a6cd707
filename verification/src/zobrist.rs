//! Zobrist hashing: a position's hash is the XOR of one random key per feature of it.

use crate::piece::{Color, Piece, PieceType};
use crate::square::Square;
use rand::Rng;
use vstd::prelude::*;

verus! {

/// The key tables. Every key is drawn at random when the hasher is made.
#[derive(Clone)]
pub struct ZobristHasher {
    /// One key per piece and square, at `64 * piece + square`.
    pub pieces: [u64; 768],
    /// One key per pawn colour and square, at `64 * colour + square`, for the pawn hash.
    pub pawns: [u64; 128],
    /// One key per file of the en-passant square.
    pub en_passant: [u64; 8],
    /// One key per castling right, in the order of the rights' bits.
    pub castling_rights: [u64; 4],
    /// The key that is part of the hash while White is to move.
    pub turn: u64,
}

/// Draws one value from `rand`'s thread-local generator (`rand::thread_rng().gen()`).
/// Nothing is claimed of the value drawn. The generator panics if the operating system
/// gives it no entropy, when it is first used or when it reseeds itself.
#[verifier::external_body]
fn random_u64() -> (r: u64) {
    rand::thread_rng().gen()
}

/// `h` with `k` mixed in if `b` holds.
pub open spec fn xor_if(h: u64, b: bool, k: u64) -> u64 {
    if b {
        h ^ k
    } else {
        h
    }
}

/// XOR is its own inverse, and the order in which keys are mixed in does not matter.
pub proof fn lemma_xor(a: u64, b: u64, c: u64)
    ensures
        (a ^ b) ^ b == a,
        (a ^ b) ^ c == (a ^ c) ^ b,
        a ^ b == b ^ a,
        a ^ 0 == a,
        a ^ a == 0,
        (a ^ b) ^ c == a ^ (b ^ c),
{
    assert({
        &&& (a ^ b) ^ b == a
        &&& (a ^ b) ^ c == (a ^ c) ^ b
        &&& a ^ b == b ^ a
        &&& a ^ 0 == a
        &&& a ^ a == 0
        &&& (a ^ b) ^ c == a ^ (b ^ c)
    }) by (bit_vector);
}

/// Whether bit `i` of a rights mask is set.
pub open spec fn has_right(rights: u8, i: int) -> bool {
    (rights >> (i as u8)) & 1 != 0
}

/// Whether no square of a mailbox holds the sentinel piece.
pub open spec fn no_sentinel(board: Seq<Option<Piece>>) -> bool {
    forall|s: int| 0 <= s < board.len() ==> #[trigger] board[s] != Some(Piece::Empty)
}

impl ZobristHasher {
    /// The key of `piece` on the square with index `s`.
    pub open spec fn piece_key(self, piece: Piece, s: int) -> u64 {
        self.pieces[64 * piece.idx() + s]
    }

    /// The pawn-hash key of a pawn of `color` on the square with index `s`.
    pub open spec fn pawn_key(self, color: Color, s: int) -> u64 {
        self.pawns[64 * color.idx() + s]
    }

    /// What square `s` of a mailbox adds to the hash: the key of the piece on it, nothing
    /// if it is empty.
    pub open spec fn square_key(self, board: Seq<Option<Piece>>, s: int) -> u64 {
        match board[s] {
            Some(p) => self.piece_key(p, s),
            None => 0,
        }
    }

    /// What square `s` of a mailbox adds to the pawn hash: the key of the pawn on it,
    /// nothing if it holds no pawn.
    pub open spec fn square_pawn_key(self, board: Seq<Option<Piece>>, s: int) -> u64 {
        match board[s] {
            Some(p) => if p.spec_type() == PieceType::Pawn {
                self.pawn_key(p.spec_color(), s)
            } else {
                0
            },
            None => 0,
        }
    }

    /// XOR of the piece keys of the first `n` squares.
    pub open spec fn pieces_fold(self, board: Seq<Option<Piece>>, n: int) -> u64
        decreases n,
    {
        if n <= 0 {
            0
        } else {
            self.pieces_fold(board, n - 1) ^ self.square_key(board, n - 1)
        }
    }

    /// XOR of the pawn keys of the first `n` squares.
    pub open spec fn pawns_fold(self, board: Seq<Option<Piece>>, n: int) -> u64
        decreases n,
    {
        if n <= 0 {
            0
        } else {
            self.pawns_fold(board, n - 1) ^ self.square_pawn_key(board, n - 1)
        }
    }

    /// `h` with the key of every right in `rights` mixed in.
    pub open spec fn castle_mix(self, h: u64, rights: u8) -> u64 {
        xor_if(
            xor_if(
                xor_if(xor_if(h, has_right(rights, 0), self.castling_rights[0]), has_right(rights, 1), self.castling_rights[1]),
                has_right(rights, 2),
                self.castling_rights[2],
            ),
            has_right(rights, 3),
            self.castling_rights[3],
        )
    }

    /// `h` with the key of the en-passant square's file mixed in, if there is such a square.
    pub open spec fn en_passant_mix(self, h: u64, sq: Option<Square>) -> u64 {
        match sq {
            Some(sq) => h ^ self.en_passant[sq.file_idx()],
            None => h,
        }
    }

    /// The hash of a position: the XOR of the piece key of every occupied square, the
    /// side key if White is to move, the key of the en-passant file if there is an
    /// en-passant square, and the key of every castling right held.
    pub open spec fn spec_hash(
        self,
        board: Seq<Option<Piece>>,
        side: Color,
        en_passant: Option<Square>,
        castling_rights: u8,
    ) -> u64 {
        self.castle_mix(
            self.en_passant_mix(xor_if(self.pieces_fold(board, 64), side == Color::White, self.turn), en_passant),
            castling_rights,
        )
    }

    /// The pawn hash of a position: the XOR of the pawn key of every pawn.
    pub open spec fn spec_pawn_hash(self, board: Seq<Option<Piece>>) -> u64 {
        self.pawns_fold(board, 64)
    }

    /// Makes a hasher with freshly drawn keys.
    pub fn new() -> (r: ZobristHasher) {
        let mut hasher = ZobristHasher {
            pieces: [0u64; 768],
            pawns: [0u64; 128],
            en_passant: [0u64; 8],
            castling_rights: [0u64; 4],
            turn: random_u64(),
        };
        let mut i: usize = 0;
        while i < 768
            invariant
                i <= 768,
            decreases 768 - i,
        {
            hasher.pieces[i] = random_u64();
            i = i + 1;
        }
        i = 0;
        while i < 128
            invariant
                i <= 128,
            decreases 128 - i,
        {
            hasher.pawns[i] = random_u64();
            i = i + 1;
        }
        i = 0;
        while i < 8
            invariant
                i <= 8,
            decreases 8 - i,
        {
            hasher.en_passant[i] = random_u64();
            i = i + 1;
        }
        i = 0;
        while i < 4
            invariant
                i <= 4,
            decreases 4 - i,
        {
            hasher.castling_rights[i] = random_u64();
            i = i + 1;
        }
        hasher
    }

    fn key_of(&self, piece: Piece, square: Square) -> (r: u64)
        requires
            piece.is_real(),
        ensures
            r == self.piece_key(piece, square.idx()),
    {
        self.pieces[64 * piece.to_index() + square.to_index()]
    }

    fn pawn_key_of(&self, color: Color, square: Square) -> (r: u64)
        ensures
            r == self.pawn_key(color, square.idx()),
    {
        self.pawns[64 * color.to_index() + square.to_index()]
    }

    fn mix_castling(&self, h: u64, rights: u8) -> (r: u64)
        ensures
            r == self.castle_mix(h, rights),
    {
        let mut hash = h;
        if (rights >> 0u8) & 1 != 0 {
            hash = hash ^ self.castling_rights[0];
        }
        if (rights >> 1u8) & 1 != 0 {
            hash = hash ^ self.castling_rights[1];
        }
        if (rights >> 2u8) & 1 != 0 {
            hash = hash ^ self.castling_rights[2];
        }
        if (rights >> 3u8) & 1 != 0 {
            hash = hash ^ self.castling_rights[3];
        }
        hash
    }

    /// Computes the hash of a position from scratch. No square may hold the sentinel piece.
    pub fn init_hash(
        &self,
        board: &[Option<Piece>; 64],
        side: Color,
        en_passant: Option<Square>,
        castling_rights: u8,
    ) -> (r: u64)
        requires
            no_sentinel(board@),
        ensures
            r == self.spec_hash(board@, side, en_passant, castling_rights),
    {
        let mut hash: u64 = 0;
        let mut i: usize = 0;
        while i < 64
            invariant
                i <= 64,
                no_sentinel(board@),
                hash == self.pieces_fold(board@, i as int),
            decreases 64 - i,
        {
            proof {
                lemma_xor(hash, 0, 0);
            }
            if let Some(piece) = board[i] {
                hash = hash ^ self.key_of(piece, Square::from_index(i));
            }
            i = i + 1;
        }
        if side == Color::White {
            hash = hash ^ self.turn;
        }
        if let Some(ep_square) = en_passant {
            hash = hash ^ self.en_passant[ep_square.get_file().to_index()];
        }
        self.mix_castling(hash, castling_rights)
    }

    /// Computes the pawn hash of a position from scratch. No square may hold the sentinel
    /// piece.
    pub fn init_hash_pawns(&self, board: &[Option<Piece>; 64]) -> (r: u64)
        requires
            no_sentinel(board@),
        ensures
            r == self.spec_pawn_hash(board@),
    {
        let mut hash: u64 = 0;
        let mut i: usize = 0;
        while i < 64
            invariant
                i <= 64,
                no_sentinel(board@),
                hash == self.pawns_fold(board@, i as int),
            decreases 64 - i,
        {
            proof {
                lemma_xor(hash, 0, 0);
            }
            if let Some(piece) = board[i] {
                if piece.get_type() == PieceType::Pawn {
                    hash = hash ^ self.pawn_key_of(piece.get_color(), Square::from_index(i));
                }
            }
            i = i + 1;
        }
        hash
    }

    /// Updates the hashes for `piece` going from `from` to `to`: its key on `from` leaves
    /// the hash, its key on `to` joins it; the pawn hash follows if the piece is a pawn.
    pub fn update_zobrist_hash_move(&self, zobrist_hash: &mut u64, pawn_hash: &mut u64, piece: Piece, from: Square, to: Square)
        requires
            piece.is_real(),
        ensures
            *final(zobrist_hash) == (*old(zobrist_hash) ^ self.piece_key(piece, from.idx())) ^ self.piece_key(
                piece,
                to.idx(),
            ),
            *final(pawn_hash) == (if piece.spec_type() == PieceType::Pawn {
                (*old(pawn_hash) ^ self.pawn_key(piece.spec_color(), from.idx())) ^ self.pawn_key(
                    piece.spec_color(),
                    to.idx(),
                )
            } else {
                *old(pawn_hash)
            }),
    {
        *zobrist_hash = *zobrist_hash ^ self.key_of(piece, from);
        *zobrist_hash = *zobrist_hash ^ self.key_of(piece, to);
        if piece.get_type() == PieceType::Pawn {
            let color = piece.get_color();
            *pawn_hash = *pawn_hash ^ self.pawn_key_of(color, from);
            *pawn_hash = *pawn_hash ^ self.pawn_key_of(color, to);
        }
    }

    /// Updates the hashes for `piece` appearing on or vanishing from `square`.
    pub fn update_zobrist_hash_capture(&self, zobrist_hash: &mut u64, pawn_hash: &mut u64, piece: Piece, square: Square)
        requires
            piece.is_real(),
        ensures
            *final(zobrist_hash) == *old(zobrist_hash) ^ self.piece_key(piece, square.idx()),
            *final(pawn_hash) == xor_if(
                *old(pawn_hash),
                piece.spec_type() == PieceType::Pawn,
                self.pawn_key(piece.spec_color(), square.idx()),
            ),
    {
        *zobrist_hash = *zobrist_hash ^ self.key_of(piece, square);
        if piece.get_type() == PieceType::Pawn {
            *pawn_hash = *pawn_hash ^ self.pawn_key_of(piece.get_color(), square);
        }
    }

    /// Updates the hashes for `pawn` on `square` turning into `promoted`.
    pub fn update_zobrist_hash_promotion(
        &self,
        zobrist_hash: &mut u64,
        pawn_hash: &mut u64,
        pawn: Piece,
        promoted: Piece,
        square: Square,
    )
        requires
            pawn.is_real(),
            promoted.is_real(),
        ensures
            *final(zobrist_hash) == (*old(zobrist_hash) ^ self.piece_key(pawn, square.idx())) ^ self.piece_key(
                promoted,
                square.idx(),
            ),
            *final(pawn_hash) == *old(pawn_hash) ^ self.pawn_key(pawn.spec_color(), square.idx()),
    {
        *zobrist_hash = *zobrist_hash ^ self.key_of(pawn, square);
        *pawn_hash = *pawn_hash ^ self.pawn_key_of(pawn.get_color(), square);
        *zobrist_hash = *zobrist_hash ^ self.key_of(promoted, square);
    }

    /// Updates the hash for the en-passant square changing from `old_sq` to `new_sq`.
    pub fn update_zobrist_hash_en_passant(&self, zobrist_hash: &mut u64, old_sq: Option<Square>, new_sq: Option<Square>)
        ensures
            *final(zobrist_hash) == self.en_passant_mix(self.en_passant_mix(*old(zobrist_hash), old_sq), new_sq),
    {
        if let Some(sq) = old_sq {
            *zobrist_hash = *zobrist_hash ^ self.en_passant[sq.get_file().to_index()];
        }
        if let Some(sq) = new_sq {
            *zobrist_hash = *zobrist_hash ^ self.en_passant[sq.get_file().to_index()];
        }
    }

    /// Updates the hash for the castling rights changing from `old_rights` to
    /// `new_rights`: the key of every right that differs is mixed in.
    pub fn update_zobrist_hash_castling(&self, zobrist_hash: &mut u64, old_rights: u8, new_rights: u8)
        ensures
            *final(zobrist_hash) == self.castle_mix(*old(zobrist_hash), old_rights ^ new_rights),
    {
        *zobrist_hash = self.mix_castling(*zobrist_hash, old_rights ^ new_rights);
    }

    /// Updates the hash for the move passing to the other side.
    pub fn update_zobrist_hash_side(&self, zobrist_hash: &mut u64)
        ensures
            *final(zobrist_hash) == *old(zobrist_hash) ^ self.turn,
    {
        *zobrist_hash = *zobrist_hash ^ self.turn;
    }
}

/// The bits of the difference of two rights masks are the rights that differ.
pub proof fn lemma_rights_diff(old_rights: u8, new_rights: u8)
    ensures
        forall|i: int| 0 <= i < 4 ==> #[trigger] has_right(old_rights ^ new_rights, i) == (has_right(old_rights, i)
            != has_right(new_rights, i)),
{
    assert({
        &&& (((old_rights ^ new_rights) >> 0u8) & 1 != 0) == (((old_rights >> 0u8) & 1 != 0) != ((new_rights >> 0u8) & 1 != 0))
        &&& (((old_rights ^ new_rights) >> 1u8) & 1 != 0) == (((old_rights >> 1u8) & 1 != 0) != ((new_rights >> 1u8) & 1 != 0))
        &&& (((old_rights ^ new_rights) >> 2u8) & 1 != 0) == (((old_rights >> 2u8) & 1 != 0) != ((new_rights >> 2u8) & 1 != 0))
        &&& (((old_rights ^ new_rights) >> 3u8) & 1 != 0) == (((old_rights >> 3u8) & 1 != 0) != ((new_rights >> 3u8) & 1 != 0))
    }) by (bit_vector);
    assert forall|i: int| 0 <= i < 4 implies #[trigger] has_right(old_rights ^ new_rights, i) == (has_right(old_rights, i)
        != has_right(new_rights, i)) by {
        if i == 0 {
        } else if i == 1 {
        } else if i == 2 {
        } else {
        }
    }
}

/// Keys mixed in twice cancel, whatever was mixed in between.
proof fn lemma_mix_twice(
    h: u64,
    c0: u64,
    c1: u64,
    c2: u64,
    c3: u64,
    t0: bool,
    t1: bool,
    t2: bool,
    t3: bool,
    u0: bool,
    u1: bool,
    u2: bool,
    u3: bool,
)
    ensures
        ({
            let m0 = xor_if(h, t0, c0);
            let m1 = xor_if(m0, t1, c1);
            let m2 = xor_if(m1, t2, c2);
            let m3 = xor_if(m2, t3, c3);
            let n0 = xor_if(m3, t0 != u0, c0);
            let n1 = xor_if(n0, t1 != u1, c1);
            let n2 = xor_if(n1, t2 != u2, c2);
            let n3 = xor_if(n2, t3 != u3, c3);
            let r0 = xor_if(h, u0, c0);
            let r1 = xor_if(r0, u1, c1);
            let r2 = xor_if(r1, u2, c2);
            n3 == xor_if(r2, u3, c3)
        }),
{
    let a0 = if t0 { c0 } else { 0 };
    let a1 = if t1 { c1 } else { 0 };
    let a2 = if t2 { c2 } else { 0 };
    let a3 = if t3 { c3 } else { 0 };
    let d0 = if t0 != u0 { c0 } else { 0 };
    let d1 = if t1 != u1 { c1 } else { 0 };
    let d2 = if t2 != u2 { c2 } else { 0 };
    let d3 = if t3 != u3 { c3 } else { 0 };
    let b0 = if u0 { c0 } else { 0 };
    let b1 = if u1 { c1 } else { 0 };
    let b2 = if u2 { c2 } else { 0 };
    let b3 = if u3 { c3 } else { 0 };
    lemma_xor(c0, 0, 0);
    lemma_xor(0, c0, 0);
    lemma_xor(c1, 0, 0);
    lemma_xor(0, c1, 0);
    lemma_xor(c2, 0, 0);
    lemma_xor(0, c2, 0);
    lemma_xor(c3, 0, 0);
    lemma_xor(0, c3, 0);
    assert(h ^ a0 ^ a1 ^ a2 ^ a3 ^ d0 ^ d1 ^ d2 ^ d3 == h ^ b0 ^ b1 ^ b2 ^ b3) by (bit_vector)
        requires
            a0 ^ d0 == b0,
            a1 ^ d1 == b1,
            a2 ^ d2 == b2,
            a3 ^ d3 == b3,
    ;
    lemma_xor(h, 0, 0);
    lemma_xor(h ^ a0, 0, 0);
    lemma_xor(h ^ a0 ^ a1, 0, 0);
    lemma_xor(h ^ a0 ^ a1 ^ a2, 0, 0);
    let m = h ^ a0 ^ a1 ^ a2 ^ a3;
    lemma_xor(m, 0, 0);
    lemma_xor(m ^ d0, 0, 0);
    lemma_xor(m ^ d0 ^ d1, 0, 0);
    lemma_xor(m ^ d0 ^ d1 ^ d2, 0, 0);
    lemma_xor(h ^ b0, 0, 0);
    lemma_xor(h ^ b0 ^ b1, 0, 0);
    lemma_xor(h ^ b0 ^ b1 ^ b2, 0, 0);
}

/// A key mixed in before the castling keys can as well be mixed in after them, and
/// likewise for the en-passant key.
pub proof fn lemma_mix_commutes(z: ZobristHasher, h: u64, k: u64, ep: Option<Square>, rights: u8)
    ensures
        z.castle_mix(h ^ k, rights) == z.castle_mix(h, rights) ^ k,
        z.en_passant_mix(h ^ k, ep) == z.en_passant_mix(h, ep) ^ k,
{
    let c0 = z.castling_rights[0];
    let c1 = z.castling_rights[1];
    let c2 = z.castling_rights[2];
    let c3 = z.castling_rights[3];
    let a0 = xor_if(h, has_right(rights, 0), c0);
    let a1 = xor_if(a0, has_right(rights, 1), c1);
    let a2 = xor_if(a1, has_right(rights, 2), c2);
    lemma_xor(h, k, c0);
    lemma_xor(a0, k, c1);
    lemma_xor(a1, k, c2);
    lemma_xor(a2, k, c3);
    let e = match ep {
        Some(sq) => z.en_passant[sq.file_idx()],
        None => 0,
    };
    lemma_xor(h, k, e);
}

/// The incremental update for a side change gives the hash of the position with the
/// other side to move.
pub proof fn lemma_hash_side(z: ZobristHasher, board: Seq<Option<Piece>>, side: Color, ep: Option<Square>, rights: u8)
    ensures
        z.spec_hash(board, side.spec_opposite(), ep, rights) == z.spec_hash(board, side, ep, rights) ^ z.turn,
{
    let f = z.pieces_fold(board, 64);
    let x = xor_if(f, side == Color::White, z.turn);
    let y = xor_if(f, side.spec_opposite() == Color::White, z.turn);
    lemma_xor(f, z.turn, 0);
    assert(y == x ^ z.turn);
    lemma_mix_commutes(z, x, z.turn, ep, rights);
    lemma_mix_commutes(z, z.en_passant_mix(x, ep), z.turn, ep, rights);
}

/// The incremental update for an en-passant change gives the hash of the position with
/// the new en-passant square.
pub proof fn lemma_hash_en_passant(
    z: ZobristHasher,
    board: Seq<Option<Piece>>,
    side: Color,
    old_ep: Option<Square>,
    new_ep: Option<Square>,
    rights: u8,
)
    ensures
        z.spec_hash(board, side, new_ep, rights) == z.en_passant_mix(
            z.en_passant_mix(z.spec_hash(board, side, old_ep, rights), old_ep),
            new_ep,
        ),
{
    let x = xor_if(z.pieces_fold(board, 64), side == Color::White, z.turn);
    let e_old = match old_ep {
        Some(sq) => z.en_passant[sq.file_idx()],
        None => 0,
    };
    let e_new = match new_ep {
        Some(sq) => z.en_passant[sq.file_idx()],
        None => 0,
    };
    lemma_xor(x, e_old, e_new);
    lemma_xor(x, 0, 0);
    lemma_mix_commutes(z, x, e_old, None, rights);
    lemma_mix_commutes(z, x, e_new, None, rights);
    let base = z.castle_mix(x, rights);
    lemma_xor(base, e_old, e_new);
    lemma_xor(base, 0, 0);
    lemma_xor(base ^ e_old, 0, 0);
}

/// The incremental update for a change of castling rights gives the hash of the
/// position with the new rights.
pub proof fn lemma_hash_rights(
    z: ZobristHasher,
    board: Seq<Option<Piece>>,
    side: Color,
    ep: Option<Square>,
    old_rights: u8,
    new_rights: u8,
)
    ensures
        z.spec_hash(board, side, ep, new_rights) == z.castle_mix(
            z.spec_hash(board, side, ep, old_rights),
            old_rights ^ new_rights,
        ),
{
    let x = z.en_passant_mix(xor_if(z.pieces_fold(board, 64), side == Color::White, z.turn), ep);
    lemma_rights_diff(old_rights, new_rights);
    assert(has_right(old_rights ^ new_rights, 0) == (has_right(old_rights, 0) != has_right(new_rights, 0)));
    assert(has_right(old_rights ^ new_rights, 1) == (has_right(old_rights, 1) != has_right(new_rights, 1)));
    assert(has_right(old_rights ^ new_rights, 2) == (has_right(old_rights, 2) != has_right(new_rights, 2)));
    assert(has_right(old_rights ^ new_rights, 3) == (has_right(old_rights, 3) != has_right(new_rights, 3)));
    lemma_mix_twice(
        x,
        z.castling_rights[0],
        z.castling_rights[1],
        z.castling_rights[2],
        z.castling_rights[3],
        has_right(old_rights, 0),
        has_right(old_rights, 1),
        has_right(old_rights, 2),
        has_right(old_rights, 3),
        has_right(new_rights, 0),
        has_right(new_rights, 1),
        has_right(new_rights, 2),
        has_right(new_rights, 3),
    );
}

} // verus!
