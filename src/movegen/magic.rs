//! Magic bitboards: perfectly hashed tables of sliding-piece attacks.
//!
//! For a rook or a bishop on a square, every set of blockers within the
//! relevance mask is hashed by a multiply and a shift to an index into a dense
//! table of attack sets. A multiplier is good when no two blocker sets with
//! different attacks share an index; good multipliers are found by random
//! search.

use vstd::prelude::*;
use crate::bits::{Bitboard, Square};
use crate::position::Role;
use super::{attacks, relevance_mask, is_slider, slider_moves, find_mask, lemma_attacks_relevant};

verus! {

/// The parameters of the hash for one piece type on one square.
#[derive(Debug, Clone, Copy, PartialEq, Eq)]
pub struct MagicEntry {
    /// The squares whose occupancy is hashed.
    pub mask: Bitboard,
    /// The multiplier.
    pub magic: u64,
    /// The number of bits of the index; the table has `2^index_bits` slots.
    pub index_bits: u8,
}

/// A multiplier that sends two blocker sets with different attacks to the same slot.
#[derive(Debug, Clone, Copy, PartialEq, Eq)]
pub struct TableFillError;

impl MagicEntry {
    /// The index has at least one bit, and few enough for every table
    /// length to fit in a `usize`.
    pub open spec fn wf(&self) -> bool {
        1 <= self.index_bits <= 31
    }

    /// The number of slots of the table.
    pub open spec fn table_len(&self) -> nat {
        vstd::arithmetic::power2::pow2(self.index_bits as nat)
    }

    /// The slot of the blocker set `blockers`: the masked blockers times the
    /// multiplier, modulo `2^64`, shifted right by `64 - index_bits`.
    pub open spec fn slot(&self, blockers: u64) -> int {
        (vstd::wrapping::u64_specs::wrapping_mul(blockers & self.mask.0, self.magic) >> (64
            - self.index_bits) as u64) as int
    }
}

/// No two subsets of the mask with different attacks share a slot.
pub open spec fn collision_free(r: Role, s: int, entry: MagicEntry) -> bool {
    forall|b1: Bitboard, b2: Bitboard|
        b1@.subset_of(entry.mask@) && b2@.subset_of(entry.mask@) && #[trigger] entry.slot(b1.0)
            == #[trigger] entry.slot(b2.0) ==> attacks(r, s, b1@) == attacks(r, s, b2@)
}

/// The table holds, at the slot of each subset of the mask, the attacks for
/// that subset.
pub open spec fn table_correct(r: Role, s: int, entry: MagicEntry, table: Seq<Bitboard>) -> bool {
    &&& table.len() == entry.table_len()
    &&& forall|b: Bitboard| #[trigger] b@.subset_of(entry.mask@) ==> table[entry.slot(b.0)]@
        == attacks(r, s, b@)
}

proof fn lemma_shift_bound(x: u64, n: u64)
    by (bit_vector)
    requires
        1 <= n <= 31,
    ensures
        x >> ((64 - n) as u64) < (1u64 << n),
{
}

proof fn lemma_shift_pow2(n: u64)
    requires
        n <= 31,
    ensures
        (1u64 << n) as nat == vstd::arithmetic::power2::pow2(n as nat),
{
    vstd::arithmetic::power2::lemma2_to64();
    if n < 32 {
        vstd::arithmetic::power2::lemma_pow2_strictly_increases(n as nat, 32);
    }
    vstd::bits::lemma_u64_shl_is_mul(1u64, n);
}

proof fn lemma_slot_bound(entry: MagicEntry, x: u64)
    requires
        entry.wf(),
    ensures
        0 <= entry.slot(x) < entry.table_len(),
{
    let hash = vstd::wrapping::u64_specs::wrapping_mul(x & entry.mask.0, entry.magic);
    lemma_shift_bound(hash, entry.index_bits as u64);
    lemma_shift_pow2(entry.index_bits as u64);
}

/// Returns the slot of the blocker set `blockers` in the table of `entry`.
pub fn magic_index(entry: &MagicEntry, blockers: Bitboard) -> (r: usize)
    requires
        entry.wf(),
    ensures
        r == entry.slot(blockers.0),
        r < entry.table_len(),
{
    let b = blockers.0 & entry.mask.0;
    let hash = b.wrapping_mul(entry.magic);
    let n = entry.index_bits as u64;
    proof {
        lemma_shift_bound(hash, n);
        lemma_shift_pow2(n);
        vstd::arithmetic::power2::lemma2_to64();
        if n < 31 {
            vstd::arithmetic::power2::lemma_pow2_strictly_increases(n as nat, 31);
        }
    }
    (hash >> (64 - n)) as usize
}

/// Builds the table of `entry` for a rook or a bishop on `s`: for each subset
/// of the mask, its attacks go to its slot. Fails when two subsets with
/// different attacks share a slot, which happens exactly when the multiplier
/// is not collision free.
pub fn try_make_table(r: Role, s: Square, entry: &MagicEntry) -> (res: Result<
    Vec<Bitboard>,
    TableFillError,
>)
    requires
        is_slider(r),
        s.valid(),
        entry.wf(),
    ensures
        res is Ok <==> collision_free(r, s.idx(), *entry),
        res matches Ok(table) ==> table_correct(r, s.idx(), *entry, table@),
{
    let mut table: Vec<Bitboard> = Vec::new();
    let mut filled: Vec<bool> = Vec::new();
    let bits = entry.index_bits;
    let n: usize = 1usize << bits;
    proof {
        lemma_shift_pow2(bits as u64);
        assert((1usize << bits) as nat == (1u64 << bits as u64) as nat) by (bit_vector)
            requires
                bits <= 31,
        ;
    }
    let mut i: usize = 0;
    while i < n
        invariant
            i <= n,
            table@.len() == i,
            filled@.len() == i,
            forall|q: int| 0 <= q < i ==> !(#[trigger] filled@[q]),
        decreases n - i,
    {
        table.push(Bitboard::empty());
        filled.push(false);
        i += 1;
    }
    let subs = entry.mask.subsets();
    let ghost si = s.idx();
    let mut k: usize = 0;
    while k < subs.len()
        invariant
            k <= subs@.len(),
            table@.len() == n,
            filled@.len() == n,
            n == entry.table_len(),
            si == s.idx(),
            entry.wf(),
            is_slider(r),
            s.valid(),
            forall|j: int| 0 <= j < subs@.len() ==> (#[trigger] subs@[j])@.subset_of(entry.mask@),
            forall|b: Bitboard| b@.subset_of(entry.mask@) ==> subs@.contains(b),
            forall|j: int|
                0 <= j < k ==> filled@[entry.slot((#[trigger] subs@[j]).0)] && table@[entry.slot(
                    subs@[j].0,
                )]@ == attacks(r, si, subs@[j]@),
            forall|q: int|
                0 <= q < n && #[trigger] filled@[q] ==> exists|j: int|
                    0 <= j < k && entry.slot((#[trigger] subs@[j]).0) == q && table@[q]@ == attacks(
                        r,
                        si,
                        subs@[j]@,
                    ),
        decreases subs@.len() - k,
    {
        let blockers = subs[k];
        let moves = slider_moves(r, s, blockers);
        let q = magic_index(entry, blockers);
        let ghost table0 = table@;
        let ghost filled0 = filled@;
        if !filled[q] {
            table.set(q, moves);
            filled.set(q, true);
            proof {
                assert forall|q2: int| 0 <= q2 < n && #[trigger] filled@[q2] implies exists|j: int|
                    0 <= j < k + 1 && entry.slot((#[trigger] subs@[j]).0) == q2 && table@[q2]@
                        == attacks(r, si, subs@[j]@) by {
                    if q2 == q {
                        assert(entry.slot(subs@[k as int].0) == q2);
                    } else {
                        let j = choose|j: int|
                            0 <= j < k && entry.slot((#[trigger] subs@[j]).0) == q2 && table0[q2]@
                                == attacks(r, si, subs@[j]@);
                    }
                }
            }
        } else if table[q].0 != moves.0 {
            proof {
                let j = choose|j: int|
                    0 <= j < k && entry.slot((#[trigger] subs@[j]).0) == q && table@[q as int]@
                        == attacks(r, si, subs@[j]@);
                let b1 = subs@[j];
                let b2 = subs@[k as int];
                if attacks(r, si, b1@) == attacks(r, si, b2@) {
                    crate::bits::lemma_bits_ext(table@[q as int].0, moves.0);
                }
                assert(!collision_free(r, si, *entry));
            }
            return Err(TableFillError);
        }
        proof {
            assert forall|j: int|
                0 <= j < k + 1 implies filled@[entry.slot((#[trigger] subs@[j]).0)] && table@[entry.slot(
                    subs@[j].0,
                )]@ == attacks(r, si, subs@[j]@) by {
                lemma_slot_bound(*entry, subs@[j].0);
                if j < k {
                    assert(filled0[entry.slot(subs@[j].0)]);
                    if !filled0[q as int] {
                        assert(entry.slot(subs@[j].0) != q);
                    }
                } else {
                    assert(subs@[j] == blockers);
                    if filled0[q as int] {
                        assert(table@[q as int] == moves);
                    }
                }
            }
        }
        k += 1;
    }
    proof {
        assert forall|b: Bitboard| #[trigger] b@.subset_of(entry.mask@) implies table@[entry.slot(b.0)]@
            == attacks(r, si, b@) by {
            assert(subs@.contains(b));
            let j = choose|j: int| 0 <= j < subs@.len() && subs@[j] == b;
        }
        assert forall|b1: Bitboard, b2: Bitboard|
            b1@.subset_of(entry.mask@) && b2@.subset_of(entry.mask@) && #[trigger] entry.slot(b1.0)
                == #[trigger] entry.slot(b2.0) implies attacks(r, si, b1@) == attacks(r, si, b2@) by {
            assert(table@[entry.slot(b1.0)]@ == attacks(r, si, b1@));
            assert(table@[entry.slot(b2.0)]@ == attacks(r, si, b2@));
        }
    }
    Ok(table)
}

/// Relies on `rand::random`: a word drawn from the thread's random number
/// generator. Nothing is known of its value.
#[verifier::external_body]
fn random_u64() -> u64 {
    rand::random::<u64>()
}

/// Searches for a collision-free multiplier for a rook or a bishop on `s`
/// with an index of `index_bits` bits, trying at most `attempts` random
/// candidates. Each candidate is the AND of three random words, which favors
/// multipliers with few set bits. Returns the entry and its table, or `None`
/// when no candidate was good.
pub fn find_magic(r: Role, s: Square, index_bits: u8, attempts: u32) -> (res: Option<(MagicEntry, Vec<Bitboard>)>)
    requires
        is_slider(r),
        s.valid(),
        1 <= index_bits <= 31,
    ensures
        res matches Some((entry, table)) ==> {
            &&& entry.mask@ == relevance_mask(r, s.idx())
            &&& entry.index_bits == index_bits
            &&& collision_free(r, s.idx(), entry)
            &&& table_correct(r, s.idx(), entry, table@)
        },
{
    let mask = find_mask(r, s);
    let mut n: u32 = 0;
    while n < attempts
        invariant
            n <= attempts,
            is_slider(r),
            s.valid(),
            1 <= index_bits <= 31,
            mask@ == relevance_mask(r, s.idx()),
        decreases attempts - n,
    {
        let magic = random_u64() & random_u64() & random_u64();
        let entry = MagicEntry { mask, magic, index_bits };
        match try_make_table(r, s, &entry) {
            Ok(table) => {
                return Some((entry, table));
            },
            Err(_) => {},
        }
        n += 1;
    }
    None
}

/// The attack table of a rook or a bishop on one square, with its hash.
#[derive(Debug, Clone, PartialEq, Eq)]
pub struct SliderTable {
    /// The piece type, a rook or a bishop.
    pub role: Role,
    /// The square of the piece.
    pub square: Square,
    /// The hash parameters.
    pub entry: MagicEntry,
    /// The attack sets, indexed by slot.
    pub table: Vec<Bitboard>,
}

impl SliderTable {
    /// The table belongs to a slider on a square, hashes over its relevance
    /// mask, and holds the right attacks at every slot it uses.
    pub open spec fn wf(&self) -> bool {
        &&& is_slider(self.role)
        &&& self.square.valid()
        &&& self.entry.wf()
        &&& self.entry.mask@ == relevance_mask(self.role, self.square.idx())
        &&& table_correct(self.role, self.square.idx(), self.entry, self.table@)
    }

    /// Searches a table for a rook or a bishop on `s` with an index of
    /// `index_bits` bits, trying at most `attempts` multipliers.
    pub fn find(r: Role, s: Square, index_bits: u8, attempts: u32) -> (res: Option<SliderTable>)
        requires
            is_slider(r),
            s.valid(),
            1 <= index_bits <= 31,
        ensures
            res matches Some(t) ==> t.wf() && t.role == r && t.square == s && t.entry.index_bits
                == index_bits,
    {
        match find_magic(r, s, index_bits, attempts) {
            Some((entry, table)) => Some(SliderTable { role: r, square: s, entry, table }),
            None => None,
        }
    }

    /// The squares that the piece attacks when the squares of `occupancy`
    /// are occupied: the occupancy is masked, hashed, and looked up.
    pub fn attacks(&self, occupancy: Bitboard) -> (r: Bitboard)
        requires
            self.wf(),
        ensures
            r@ == attacks(self.role, self.square.idx(), occupancy@),
    {
        let blockers = occupancy.intersection(self.entry.mask);
        let i = magic_index(&self.entry, blockers);
        proof {
            lemma_attacks_relevant(self.role, self.square.idx(), occupancy@);
            assert(blockers@.subset_of(self.entry.mask@));
        }
        self.table[i]
    }
}

/// Searches the attack tables of a rook or a bishop on every square, in
/// ascending order of square, each with as many index bits as its relevance
/// mask has squares, trying at most `attempts` multipliers per square.
/// Returns `None` when some square found no collision-free multiplier.
pub fn dump_magics(r: Role, attempts: u32) -> (res: Option<Vec<SliderTable>>)
    requires
        is_slider(r),
    ensures
        res matches Some(v) ==> v@.len() == 64 && forall|i: int|
            0 <= i < 64 ==> (#[trigger] v@[i]).wf() && v@[i].role == r && v@[i].square.idx() == i,
{
    let mut v: Vec<SliderTable> = Vec::new();
    let mut i: u32 = 0;
    while i < 64
        invariant
            i <= 64,
            is_slider(r),
            v@.len() == i,
            forall|j: int|
                0 <= j < i ==> (#[trigger] v@[j]).wf() && v@[j].role == r && v@[j].square.idx() == j,
        decreases 64 - i,
    {
        let s = Square::new(i);
        let n = find_mask(r, s).count();
        let bits: u8 = if n < 1 {
            1
        } else if n > 31 {
            31
        } else {
            n as u8
        };
        match SliderTable::find(r, s, bits, attempts) {
            Some(t) => {
                v.push(t);
            },
            None => {
                return None;
            },
        }
        i += 1;
    }
    Some(v)
}

} // verus!
