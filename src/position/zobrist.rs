//! Zobrist hashing of positions.
//!
//! Every feature of a position (a piece on a square, black to move, a castling
//! right, the file of an en passant square) has a fixed pseudo-random key, and
//! the hash of a position is the XOR of the keys of its features. A change of
//! one feature changes the hash by the XOR of its old and new keys.

use vstd::prelude::*;
use crate::bits::Square;
use super::{Color, Piece, Position};
use super::board::{Board, moved};
use super::castling::{Castling, CastlingSide};

verus! {

/// The number of keys: one per piece on each square, one for black to move,
/// four castling rights and eight en passant files.
pub const KEY_COUNT: usize = 781;

/// The index of the key of piece `p` on square `s`.
pub open spec fn piece_slot(s: int, p: Piece) -> int {
    s * 12 + p.0.idx() * 6 + p.1.idx()
}

/// The index of the key of black to move.
pub open spec fn black_slot() -> int {
    768
}

/// The index of the key of the castling right of color `c` on side `cs`.
pub open spec fn castling_slot(c: Color, cs: CastlingSide) -> int {
    769 + c.idx() * 2 + match cs {
        CastlingSide::Kingside => 0int,
        CastlingSide::Queenside => 1int,
    }
}

/// The index of the key of an en passant square on file `f`.
pub open spec fn file_slot(f: int) -> int {
    773 + f
}

/// The key of the content of square `s`: the key of its piece, or zero.
pub open spec fn square_key(keys: Seq<u64>, s: int, o: Option<Piece>) -> u64 {
    match o {
        Some(p) => keys[piece_slot(s, p)],
        None => 0,
    }
}

/// The XOR of the keys of the pieces on the squares below `n`.
pub open spec fn board_hash_upto(keys: Seq<u64>, v: Seq<Option<Piece>>, n: int) -> u64
    decreases n,
{
    if n <= 0 {
        0
    } else {
        board_hash_upto(keys, v, n - 1) ^ square_key(keys, n - 1, v[n - 1])
    }
}

/// The hash of a placement: the XOR of the keys of all its pieces.
pub open spec fn board_hash(keys: Seq<u64>, v: Seq<Option<Piece>>) -> u64 {
    board_hash_upto(keys, v, 64)
}

/// The XOR of the keys of the castling rights that `c` grants.
pub open spec fn castling_hash(keys: Seq<u64>, c: Castling) -> u64 {
    (if c.0.0 { keys[castling_slot(Color::White, CastlingSide::Kingside)] } else { 0u64 })
        ^ (if c.0.1 { keys[castling_slot(Color::White, CastlingSide::Queenside)] } else { 0u64 })
        ^ (if c.1.0 { keys[castling_slot(Color::Black, CastlingSide::Kingside)] } else { 0u64 })
        ^ (if c.1.1 { keys[castling_slot(Color::Black, CastlingSide::Queenside)] } else { 0u64 })
}

/// The hash of a position with placement `v`, side to move `turn`, castling
/// rights `c` and en passant square `ep`.
pub open spec fn position_hash(
    keys: Seq<u64>,
    v: Seq<Option<Piece>>,
    turn: Color,
    c: Castling,
    ep: Option<Square>,
) -> u64 {
    board_hash(keys, v) ^ (if turn == Color::Black { keys[black_slot()] } else { 0u64 })
        ^ castling_hash(keys, c) ^ match ep {
        Some(s) => keys[file_slot(s.idx() % 8)],
        None => 0u64,
    }
}

/// Each key carries its own index in its ten low bits, so that no two keys are equal.
pub open spec fn keys_tagged(keys: Seq<u64>) -> bool {
    &&& keys.len() == KEY_COUNT
    &&& forall|i: int| 0 <= i < KEY_COUNT ==> (#[trigger] keys[i]) & 0x3FFu64 == i as u64
}

/// The fixed pseudo-random keys of Zobrist hashing.
pub struct ZobristKeys {
    keys: Vec<u64>,
}

impl View for ZobristKeys {
    type V = Seq<u64>;

    closed spec fn view(&self) -> Seq<u64> {
        self.keys@
    }
}

/// The increment of the SplitMix64 state.
pub const SPLIT_MIX_GAMMA: u64 = 0x9E37_79B9_7F4A_7C15;

/// The output mix of SplitMix64 for state `z`.
pub open spec fn mix(z: u64) -> u64 {
    let a = vstd::wrapping::u64_specs::wrapping_mul(z ^ (z >> 30), 0xBF58_476D_1CE4_E5B9);
    let b = vstd::wrapping::u64_specs::wrapping_mul(a ^ (a >> 27), 0x94D0_49BB_1331_11EB);
    b ^ (b >> 31)
}

/// The state of SplitMix64 seeded with `seed` after `n` steps.
pub open spec fn split_mix_state(seed: u64, n: nat) -> u64 {
    ((seed + n * SPLIT_MIX_GAMMA) % 0x1_0000_0000_0000_0000) as u64
}

/// Key `i` for the seed `seed`: the `i + 1`-th output of SplitMix64, with its
/// ten low bits replaced by `i`.
pub open spec fn key_value(seed: u64, i: nat) -> u64 {
    (mix(split_mix_state(seed, i + 1)) & !0x3FFu64) | (i as u64)
}

/// One step of the SplitMix64 generator: advances the state and returns the
/// mixed output.
fn split_mix(state: &mut u64) -> (r: u64)
    ensures
        *final(state) == vstd::wrapping::u64_specs::wrapping_add(*old(state), SPLIT_MIX_GAMMA),
        r == mix(*final(state)),
{
    *state = state.wrapping_add(SPLIT_MIX_GAMMA);
    let mut z = *state;
    z = (z ^ (z >> 30)).wrapping_mul(0xBF58_476D_1CE4_E5B9);
    z = (z ^ (z >> 27)).wrapping_mul(0x94D0_49BB_1331_11EB);
    z ^ (z >> 31)
}

proof fn lemma_state_step(seed: u64, n: nat)
    ensures
        vstd::wrapping::u64_specs::wrapping_add(split_mix_state(seed, n), SPLIT_MIX_GAMMA)
            == split_mix_state(seed, n + 1),
{
    let m: int = 0x1_0000_0000_0000_0000;
    let a: int = seed + n * SPLIT_MIX_GAMMA;
    vstd::arithmetic::div_mod::lemma_add_mod_noop(a, SPLIT_MIX_GAMMA as int, m);
    vstd::arithmetic::div_mod::lemma_mod_bound(a, m);
    vstd::arithmetic::div_mod::lemma_small_mod(SPLIT_MIX_GAMMA as nat, m as nat);
    assert(a + SPLIT_MIX_GAMMA == seed + (n + 1) * SPLIT_MIX_GAMMA) by (nonlinear_arith)
        requires
            a == seed + n * SPLIT_MIX_GAMMA,
    ;
    let x = a % m;
    assert(0 <= x < m);
    let y = x + SPLIT_MIX_GAMMA;
    if y >= m {
        vstd::arithmetic::div_mod::lemma_fundamental_div_mod_converse(y, m, 1, y - m);
    } else {
        vstd::arithmetic::div_mod::lemma_small_mod(y as nat, m as nat);
    }
}

proof fn lemma_tag(x: u64, i: u64)
    by (bit_vector)
    requires
        i < 1024,
    ensures
        ((x & !0x3FFu64) | i) & 0x3FFu64 == i,
{
}

proof fn lemma_tags_differ(x: u64, y: u64, i: u64, j: u64)
    by (bit_vector)
    requires
        x & 0x3FFu64 == i,
        y & 0x3FFu64 == j,
        i != j,
    ensures
        x != y,
        x ^ y != 0,
{
}

proof fn lemma_xor_facts(a: u64, b: u64, c: u64)
    by (bit_vector)
    ensures
        (a ^ b) ^ c == a ^ (b ^ c),
        a ^ b == b ^ a,
        a ^ 0 == a,
        a ^ a == 0,
        b != 0 ==> a ^ b != a,
{
}

impl ZobristKeys {
    /// The keys are all present and pairwise distinct.
    pub open spec fn wf(&self) -> bool {
        keys_tagged(self@)
    }

    /// Generates the keys from `seed` with the SplitMix64 generator; the ten
    /// low bits of each key are replaced by its index.
    pub fn from_seed(seed: u64) -> (r: ZobristKeys)
        ensures
            r.wf(),
            keys_tagged(r@),
            forall|i: int| 0 <= i < KEY_COUNT ==> #[trigger] r@[i] == key_value(seed, i as nat),
    {
        let mut state = seed;
        let mut keys: Vec<u64> = Vec::new();
        let mut i: usize = 0;
        proof {
            vstd::arithmetic::div_mod::lemma_small_mod(seed as nat, 0x1_0000_0000_0000_0000);
        }
        while i < KEY_COUNT
            invariant
                i <= KEY_COUNT,
                keys@.len() == i,
                state == split_mix_state(seed, i as nat),
                forall|j: int| 0 <= j < i ==> (#[trigger] keys@[j]) & 0x3FFu64 == j as u64,
                forall|j: int| 0 <= j < i ==> #[trigger] keys@[j] == key_value(seed, j as nat),
            decreases KEY_COUNT - i,
        {
            proof {
                lemma_state_step(seed, i as nat);
            }
            let x = split_mix(&mut state);
            proof {
                lemma_tag(x, i as u64);
            }
            keys.push((x & !0x3FFu64) | (i as u64));
            i += 1;
        }
        ZobristKeys { keys }
    }

    /// The key of piece `p` on square `s`.
    pub fn piece_key(&self, s: Square, p: Piece) -> (r: u64)
        requires
            self.wf(),
            s.valid(),
        ensures
            r == self@[piece_slot(s.idx(), p)],
    {
        self.keys[s.index() * 12 + p.0.index() * 6 + p.1.index()]
    }

    /// The hash of a board: the XOR of the keys of all its pieces.
    pub fn hash_board(&self, board: &Board) -> (r: u64)
        requires
            self.wf(),
            board.wf(),
        ensures
            r == board_hash(self@, board@),
    {
        let mut h: u64 = 0;
        let mut i: u32 = 0;
        while i < 64
            invariant
                i <= 64,
                self.wf(),
                board.wf(),
                h == board_hash_upto(self@, board@, i as int),
            decreases 64 - i,
        {
            let s = Square::new(i);
            match board.get(s) {
                Some(p) => {
                    h = h ^ self.piece_key(s, p);
                },
                None => {
                    proof {
                        lemma_xor_facts(h, 0, 0);
                    }
                },
            }
            i += 1;
        }
        h
    }

    /// The hash of a position: the XOR of the keys of its pieces, of black to
    /// move if it is, of each castling right granted, and of the file of the
    /// en passant square if there is one.
    pub fn hash_position(&self, pos: &Position) -> (r: u64)
        requires
            self.wf(),
            pos.wf(),
        ensures
            r == position_hash(
                self@,
                pos.board_spec(),
                pos.turn_spec(),
                pos.castling_spec(),
                pos.en_passant_spec(),
            ),
    {
        let mut h = self.hash_board(pos.board());
        let turn = match pos.turn() {
            Color::Black => self.keys[768],
            Color::White => 0,
        };
        h = h ^ turn;
        let c = pos.castling();
        let wk = if c.0.0 { self.keys[769] } else { 0 };
        let wq = if c.0.1 { self.keys[770] } else { 0 };
        let bk = if c.1.0 { self.keys[771] } else { 0 };
        let bq = if c.1.1 { self.keys[772] } else { 0 };
        proof {
            lemma_xor_facts(h, wk ^ wq ^ bk, bq);
            lemma_xor_facts(h, wk ^ wq, bk);
            lemma_xor_facts(h, wk, wq);
        }
        h = h ^ (wk ^ wq ^ bk ^ bq);
        let ep = match pos.en_passant() {
            Some(s) => self.keys[773 + s.index() % 8],
            None => 0,
        };
        h ^ ep
    }

    /// Updates the board hash `hash` for the move of `mover` from `from` to
    /// `to`, where `captured` stood: the keys of the departure, of the
    /// captured piece and of the arrival are XORed in, without recomputing
    /// the hash from scratch.
    pub fn update_for_move(
        &self,
        hash: u64,
        from: Square,
        to: Square,
        mover: Piece,
        captured: Option<Piece>,
    ) -> (r: u64)
        requires
            self.wf(),
            from.valid(),
            to.valid(),
            from != to,
        ensures
            forall|v: Seq<Option<Piece>>|
                v.len() == 64 && hash == #[trigger] board_hash(self@, v) && v[from.idx()] == Some(mover)
                    && v[to.idx()] == captured ==> r == board_hash(self@, moved(v, from.idx(), to.idx())),
    {
        let departure = self.piece_key(from, mover);
        let arrival = self.piece_key(to, mover);
        let taken = match captured {
            Some(p) => self.piece_key(to, p),
            None => 0,
        };
        let r = hash ^ departure ^ taken ^ arrival;
        proof {
            assert forall|v: Seq<Option<Piece>>|
                v.len() == 64 && hash == #[trigger] board_hash(self@, v) && v[from.idx()] == Some(mover)
                    && v[to.idx()] == captured implies r == board_hash(self@, moved(v, from.idx(), to.idx())) by {
                let v1 = v.update(from.idx(), None);
                lemma_hash_update(self@, v, from.idx(), None);
                lemma_hash_update(self@, v1, to.idx(), Some(mover));
                assert(moved(v, from.idx(), to.idx()) == v1.update(to.idx(), Some(mover)));
                lemma_xor_facts(hash ^ departure, 0, 0);
                assert(v1[to.idx()] == captured);
            }
        }
        r
    }

    /// Updates `hash` for the piece `p` appearing on or leaving square `s`.
    pub fn toggle(&self, hash: u64, s: Square, p: Piece) -> (r: u64)
        requires
            self.wf(),
            s.valid(),
        ensures
            r == hash ^ self@[piece_slot(s.idx(), p)],
    {
        hash ^ self.piece_key(s, p)
    }
}

proof fn lemma_xor_shapes(h: u64, a: u64, b: u64, c: u64)
    by (bit_vector)
    ensures
        ((h ^ a) ^ b) ^ c == ((h ^ c) ^ a) ^ b,
        ((h ^ a) ^ a) ^ b == h ^ b,
        (h ^ a) ^ b == (h ^ b) ^ a,
{
}

proof fn lemma_hash_update_upto(
    keys: Seq<u64>,
    v: Seq<Option<Piece>>,
    i: int,
    x: Option<Piece>,
    n: int,
)
    requires
        v.len() == 64,
        0 <= i < 64,
        0 <= n <= 64,
    ensures
        board_hash_upto(keys, v.update(i, x), n) == if i < n {
            board_hash_upto(keys, v, n) ^ square_key(keys, i, v[i]) ^ square_key(keys, i, x)
        } else {
            board_hash_upto(keys, v, n)
        },
    decreases n,
{
    if n > 0 {
        lemma_hash_update_upto(keys, v, i, x, n - 1);
        let h = board_hash_upto(keys, v, n - 1);
        let a = square_key(keys, i, v[i]);
        let b = square_key(keys, i, x);
        let c = square_key(keys, n - 1, v[n - 1]);
        lemma_xor_shapes(h, a, b, c);
        lemma_xor_shapes(h, a, b, a);
    }
}

/// Changing the content of one square changes the hash of a placement by the
/// XOR of the old and the new key of that square.
pub proof fn lemma_hash_update(keys: Seq<u64>, v: Seq<Option<Piece>>, i: int, x: Option<Piece>)
    requires
        v.len() == 64,
        0 <= i < 64,
    ensures
        board_hash(keys, v.update(i, x)) == board_hash(keys, v) ^ square_key(keys, i, v[i])
            ^ square_key(keys, i, x),
{
    lemma_hash_update_upto(keys, v, i, x, 64);
}

/// Moving one piece to an empty
/// square changes the hash by the XOR of the piece's keys on the two squares,
/// which is never zero; moving it back restores the hash exactly.
pub proof fn lemma_move_hash(keys: Seq<u64>, v: Seq<Option<Piece>>, a: int, b: int)
    requires
        keys_tagged(keys),
        v.len() == 64,
        0 <= a < 64,
        0 <= b < 64,
        a != b,
        v[a] is Some,
        v[b] is None,
    ensures
        board_hash(keys, moved(v, a, b)) == board_hash(keys, v) ^ keys[piece_slot(a, v[a]->0)]
            ^ keys[piece_slot(b, v[a]->0)],
        board_hash(keys, moved(v, a, b)) != board_hash(keys, v),
        board_hash(keys, moved(moved(v, a, b), b, a)) == board_hash(keys, v),
{
    let p = v[a]->0;
    let h = board_hash(keys, v);
    let ka = keys[piece_slot(a, p)];
    let kb = keys[piece_slot(b, p)];
    let v1 = v.update(a, None);
    lemma_hash_update(keys, v, a, None);
    lemma_hash_update(keys, v1, b, Some(p));
    assert(moved(v, a, b) == v1.update(b, Some(p)));
    lemma_xor_facts(h, ka, 0);
    lemma_xor_facts(h ^ ka, 0, kb);
    lemma_xor_facts(h ^ ka, 0, 0);
    assert(board_hash(keys, moved(v, a, b)) == h ^ ka ^ kb);
    assert(0 <= piece_slot(a, p) < 768 && 0 <= piece_slot(b, p) < 768);
    lemma_tags_differ(ka, kb, piece_slot(a, p) as u64, piece_slot(b, p) as u64);
    lemma_xor_facts(h, ka ^ kb, 0);
    lemma_xor_facts(h, ka, kb);
    assert(moved(moved(v, a, b), b, a) =~= v);
}

/// A hasher that XORs what it is fed into one word, each byte at the position
/// given by its place in the input modulo eight; fed the keys of a
/// position's features as words, it finishes with their XOR.
#[derive(Debug, Clone, Copy, PartialEq, Eq)]
pub struct ZobristHasher(pub u64);

impl ZobristHasher {
    /// Creates a hasher whose value is zero.
    pub fn new() -> (r: ZobristHasher)
        ensures
            r.0 == 0,
    {
        ZobristHasher(0)
    }
}

impl Default for ZobristHasher {
    fn default() -> (r: ZobristHasher)
        ensures
            r.0 == 0,
    {
        ZobristHasher::new()
    }
}

/// The XOR of the first `n` bytes of `b`, byte `i` shifted left by
/// `8 * (i % 8)` bits.
pub open spec fn fold_bytes(b: Seq<u8>, n: int) -> u64
    decreases n,
{
    if n <= 0 {
        0
    } else {
        fold_bytes(b, n - 1) ^ ((b[n - 1] as u64) << (((n - 1) % 8) * 8) as u64)
    }
}

impl std::hash::Hasher for ZobristHasher {
    fn finish(&self) -> (r: u64)
        ensures
            r == self.0,
    {
        self.0
    }

    /// XORs the bytes into the value, byte `i` shifted left by `8 * (i % 8)` bits.
    fn write(&mut self, bytes: &[u8])
        ensures
            final(self).0 == old(self).0 ^ fold_bytes(bytes@, bytes@.len() as int),
    {
        let ghost start = self.0;
        let mut shamt: u64 = 0;
        let mut i: usize = 0;
        proof {
            lemma_xor_facts(start, 0, 0);
        }
        while i < bytes.len()
            invariant
                i <= bytes@.len(),
                shamt < 8,
                shamt == i % 8,
                self.0 == start ^ fold_bytes(bytes@, i as int),
            decreases bytes@.len() - i,
        {
            proof {
                lemma_xor_facts(start, fold_bytes(bytes@, i as int), (bytes@[i as int] as u64) << (shamt * 8));
            }
            self.0 = self.0 ^ ((bytes[i] as u64) << (shamt * 8));
            let next: u64 = shamt + 1;
            proof {
                assert(next & 7u64 < 8 && next & 7u64 == next % 8) by (bit_vector);
            }
            shamt = next & 7;
            i += 1;
        }
    }
}

/// A factory of [`ZobristHasher`]s.
#[derive(Debug, Clone, Copy, PartialEq, Eq)]
pub struct BuildZobristHasher;

impl BuildZobristHasher {
    /// Creates a new factory.
    pub fn new() -> (r: BuildZobristHasher) {
        BuildZobristHasher
    }
}

impl Default for BuildZobristHasher {
    fn default() -> (r: BuildZobristHasher) {
        BuildZobristHasher
    }
}

impl std::hash::BuildHasher for BuildZobristHasher {
    type Hasher = ZobristHasher;

    fn build_hasher(&self) -> (r: ZobristHasher)
        ensures
            r.0 == 0,
    {
        ZobristHasher::new()
    }
}

} // verus!
