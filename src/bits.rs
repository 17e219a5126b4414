//! Squares, ranks, files and bitboards.

use vstd::prelude::*;
use vstd::std_specs::iter::IteratorSpec;
use vstd::std_specs::bits::{u64_trailing_zeros, u64_leading_zeros};

verus! {

/// A view of an object from the opposite side of the board.
pub trait Flippable: Sized {
    /// The values that can be flipped.
    spec fn well_formed(&self) -> bool;

    /// Returns the flipped representation.
    fn flipped(&self) -> (r: Self)
        requires
            self.well_formed(),
        ensures
            r.well_formed(),
    ;
}

/// An index on a chessboard, in rank-major order (`index = rank * 8 + file`).
///
/// ```text
/// 8   56 57 58 59 60 61 62 63
/// 7   48 49 50 51 52 53 54 55
/// 6   40 41 42 43 44 45 46 47
/// 5   32 33 34 35 36 37 38 39
/// 4   24 25 26 27 28 29 30 31
/// 3   16 17 18 19 20 21 22 23
/// 2    8  9 10 11 12 13 14 15
/// 1    0  1  2  3  4  5  6  7
///
///      a  b  c  d  e  f  g  h
/// ```
#[derive(Clone, Copy, PartialEq, Eq, Debug, Structural)]
pub struct Square(pub u32);

/// Total number of squares on a chessboard.
pub const SQUARE_COUNT: usize = 64;

impl Square {
    /// A square holds an index below 64.
    pub open spec fn valid(self) -> bool {
        self.0 < 64
    }

    /// The index of the square.
    pub open spec fn idx(self) -> int {
        self.0 as int
    }

    /// Creates a new square.
    pub fn new(value: u32) -> (r: Square)
        requires
            value < 64,
        ensures
            r.0 == value,
            r.valid(),
    {
        Square(value)
    }

    /// Gets the rank of the square.
    pub fn rank(self) -> (r: Rank)
        requires
            self.valid(),
        ensures
            r.idx() == self.0 / 8,
    {
        Rank::from_index(self.0 / 8)
    }

    /// Gets the file of the square.
    pub fn file(self) -> (r: File)
        requires
            self.valid(),
        ensures
            r.idx() == self.0 % 8,
    {
        File::from_index(self.0 % 8)
    }

    /// Returns the index of the square.
    pub fn index(self) -> (r: usize)
        ensures
            r == self.0,
    {
        self.0 as usize
    }

    /// Returns all squares in ascending order of index.
    pub fn iter() -> (r: std::vec::IntoIter<Square>)
        ensures
            r.remaining().len() == 64,
            forall|i: int| 0 <= i < 64 ==> #[trigger] r.remaining()[i] == Square(i as u32),
    {
        let mut v: Vec<Square> = Vec::new();
        let mut i: u32 = 0;
        while i < 64
            invariant
                i <= 64,
                v@.len() == i,
                forall|j: int| 0 <= j < i ==> #[trigger] v@[j] == Square(j as u32),
            decreases 64 - i,
        {
            v.push(Square(i));
            i += 1;
        }
        v.into_iter()
    }
}

/// The point reflection of a square index through the board's center.
pub open spec fn flip_index(i: int) -> int {
    63 - i
}

impl Flippable for Square {
    open spec fn well_formed(&self) -> bool {
        self.valid()
    }

    /// Reflects the square through the center of the board (`i` becomes `63 - i`).
    fn flipped(&self) -> (r: Square)
        ensures
            r.idx() == flip_index(self.idx()),
    {
        Square(63 - self.0)
    }
}

/// A row on a chessboard.
#[derive(Clone, Copy, PartialEq, Eq, Debug, Structural)]
pub enum Rank {
    First,
    Second,
    Third,
    Fourth,
    Fifth,
    Sixth,
    Seventh,
    Eighth,
}

impl Rank {
    /// The position of the rank, from 0 to 7.
    pub open spec fn idx(self) -> int {
        match self {
            Rank::First => 0,
            Rank::Second => 1,
            Rank::Third => 2,
            Rank::Fourth => 3,
            Rank::Fifth => 4,
            Rank::Sixth => 5,
            Rank::Seventh => 6,
            Rank::Eighth => 7,
        }
    }

    /// The rank at position `i`, for `i < 8`.
    pub open spec fn of_index(i: int) -> Rank {
        if i == 0 {
            Rank::First
        } else if i == 1 {
            Rank::Second
        } else if i == 2 {
            Rank::Third
        } else if i == 3 {
            Rank::Fourth
        } else if i == 4 {
            Rank::Fifth
        } else if i == 5 {
            Rank::Sixth
        } else if i == 6 {
            Rank::Seventh
        } else {
            Rank::Eighth
        }
    }

    /// The notation character of the rank, `'1'` to `'8'`.
    pub open spec fn to_char_spec(self) -> char {
        match self {
            Rank::First => '1',
            Rank::Second => '2',
            Rank::Third => '3',
            Rank::Fourth => '4',
            Rank::Fifth => '5',
            Rank::Sixth => '6',
            Rank::Seventh => '7',
            Rank::Eighth => '8',
        }
    }

    fn from_index(i: u32) -> (r: Rank)
        requires
            i < 8,
        ensures
            r.idx() == i,
            r == Rank::of_index(i as int),
    {
        if i == 0 {
            Rank::First
        } else if i == 1 {
            Rank::Second
        } else if i == 2 {
            Rank::Third
        } else if i == 3 {
            Rank::Fourth
        } else if i == 4 {
            Rank::Fifth
        } else if i == 5 {
            Rank::Sixth
        } else if i == 6 {
            Rank::Seventh
        } else {
            Rank::Eighth
        }
    }

    /// Returns the position of the rank, from 0 to 7.
    pub fn index(self) -> (r: u32)
        ensures
            r == self.idx(),
    {
        match self {
            Rank::First => 0,
            Rank::Second => 1,
            Rank::Third => 2,
            Rank::Fourth => 3,
            Rank::Fifth => 4,
            Rank::Sixth => 5,
            Rank::Seventh => 6,
            Rank::Eighth => 7,
        }
    }

    /// Returns all ranks in ascending order.
    pub fn iter() -> (r: std::vec::IntoIter<Rank>)
        ensures
            r.remaining().len() == 8,
            forall|i: int| 0 <= i < 8 ==> (#[trigger] r.remaining()[i]).idx() == i,
    {
        let v = vec![
            Rank::First,
            Rank::Second,
            Rank::Third,
            Rank::Fourth,
            Rank::Fifth,
            Rank::Sixth,
            Rank::Seventh,
            Rank::Eighth,
        ];
        v.into_iter()
    }
}

impl TryFrom<u32> for Rank {
    type Error = u32;

    /// The rank at position `i`, or `i` itself when `i >= 8`.
    fn try_from(i: u32) -> (r: Result<Rank, u32>) {
        if i < 8 {
            Ok(Rank::from_index(i))
        } else {
            Err(i)
        }
    }
}

impl vstd::std_specs::convert::TryFromSpecImpl<u32> for Rank {
    open spec fn obeys_try_from_spec() -> bool {
        true
    }

    open spec fn try_from_spec(i: u32) -> Result<Rank, u32> {
        if i < 8 {
            Ok(Rank::of_index(i as int))
        } else {
            Err(i)
        }
    }
}

impl From<Rank> for char {
    /// The notation character of the rank.
    fn from(x: Rank) -> (c: char) {
        match x {
            Rank::First => '1',
            Rank::Second => '2',
            Rank::Third => '3',
            Rank::Fourth => '4',
            Rank::Fifth => '5',
            Rank::Sixth => '6',
            Rank::Seventh => '7',
            Rank::Eighth => '8',
        }
    }
}

impl vstd::std_specs::convert::FromSpecImpl<Rank> for char {
    open spec fn obeys_from_spec() -> bool {
        true
    }

    open spec fn from_spec(x: Rank) -> char {
        x.to_char_spec()
    }
}

impl TryFrom<char> for Rank {
    type Error = char;

    /// The rank written as `c`, or `c` itself when no rank is.
    fn try_from(c: char) -> (r: Result<Rank, char>) {
        if c == '1' {
            Ok(Rank::First)
        } else if c == '2' {
            Ok(Rank::Second)
        } else if c == '3' {
            Ok(Rank::Third)
        } else if c == '4' {
            Ok(Rank::Fourth)
        } else if c == '5' {
            Ok(Rank::Fifth)
        } else if c == '6' {
            Ok(Rank::Sixth)
        } else if c == '7' {
            Ok(Rank::Seventh)
        } else if c == '8' {
            Ok(Rank::Eighth)
        } else {
            Err(c)
        }
    }
}

impl vstd::std_specs::convert::TryFromSpecImpl<char> for Rank {
    open spec fn obeys_try_from_spec() -> bool {
        true
    }

    open spec fn try_from_spec(c: char) -> Result<Rank, char> {
        if c == '1' {
            Ok(Rank::First)
        } else if c == '2' {
            Ok(Rank::Second)
        } else if c == '3' {
            Ok(Rank::Third)
        } else if c == '4' {
            Ok(Rank::Fourth)
        } else if c == '5' {
            Ok(Rank::Fifth)
        } else if c == '6' {
            Ok(Rank::Sixth)
        } else if c == '7' {
            Ok(Rank::Seventh)
        } else if c == '8' {
            Ok(Rank::Eighth)
        } else {
            Err(c)
        }
    }
}

/// A column on a chessboard.
#[derive(Clone, Copy, PartialEq, Eq, Debug, Structural)]
pub enum File {
    A,
    B,
    C,
    D,
    E,
    F,
    G,
    H,
}

impl File {
    /// The position of the file, from 0 to 7.
    pub open spec fn idx(self) -> int {
        match self {
            File::A => 0,
            File::B => 1,
            File::C => 2,
            File::D => 3,
            File::E => 4,
            File::F => 5,
            File::G => 6,
            File::H => 7,
        }
    }

    /// The file at position `i`, for `i < 8`.
    pub open spec fn of_index(i: int) -> File {
        if i == 0 {
            File::A
        } else if i == 1 {
            File::B
        } else if i == 2 {
            File::C
        } else if i == 3 {
            File::D
        } else if i == 4 {
            File::E
        } else if i == 5 {
            File::F
        } else if i == 6 {
            File::G
        } else {
            File::H
        }
    }

    /// The notation character of the file, `'a'` to `'h'`.
    pub open spec fn to_char_spec(self) -> char {
        match self {
            File::A => 'a',
            File::B => 'b',
            File::C => 'c',
            File::D => 'd',
            File::E => 'e',
            File::F => 'f',
            File::G => 'g',
            File::H => 'h',
        }
    }

    fn from_index(i: u32) -> (r: File)
        requires
            i < 8,
        ensures
            r.idx() == i,
            r == File::of_index(i as int),
    {
        if i == 0 {
            File::A
        } else if i == 1 {
            File::B
        } else if i == 2 {
            File::C
        } else if i == 3 {
            File::D
        } else if i == 4 {
            File::E
        } else if i == 5 {
            File::F
        } else if i == 6 {
            File::G
        } else {
            File::H
        }
    }

    /// Returns the position of the file, from 0 to 7.
    pub fn index(self) -> (r: u32)
        ensures
            r == self.idx(),
    {
        match self {
            File::A => 0,
            File::B => 1,
            File::C => 2,
            File::D => 3,
            File::E => 4,
            File::F => 5,
            File::G => 6,
            File::H => 7,
        }
    }

    /// Returns all files in ascending order.
    pub fn iter() -> (r: std::vec::IntoIter<File>)
        ensures
            r.remaining().len() == 8,
            forall|i: int| 0 <= i < 8 ==> (#[trigger] r.remaining()[i]).idx() == i,
    {
        let v = vec![
            File::A,
            File::B,
            File::C,
            File::D,
            File::E,
            File::F,
            File::G,
            File::H,
        ];
        v.into_iter()
    }
}

impl TryFrom<u32> for File {
    type Error = u32;

    /// The file at position `i`, or `i` itself when `i >= 8`.
    fn try_from(i: u32) -> (r: Result<File, u32>) {
        if i < 8 {
            Ok(File::from_index(i))
        } else {
            Err(i)
        }
    }
}

impl vstd::std_specs::convert::TryFromSpecImpl<u32> for File {
    open spec fn obeys_try_from_spec() -> bool {
        true
    }

    open spec fn try_from_spec(i: u32) -> Result<File, u32> {
        if i < 8 {
            Ok(File::of_index(i as int))
        } else {
            Err(i)
        }
    }
}

impl From<File> for char {
    /// The notation character of the file.
    fn from(x: File) -> (c: char) {
        match x {
            File::A => 'a',
            File::B => 'b',
            File::C => 'c',
            File::D => 'd',
            File::E => 'e',
            File::F => 'f',
            File::G => 'g',
            File::H => 'h',
        }
    }
}

impl vstd::std_specs::convert::FromSpecImpl<File> for char {
    open spec fn obeys_from_spec() -> bool {
        true
    }

    open spec fn from_spec(x: File) -> char {
        x.to_char_spec()
    }
}

impl TryFrom<char> for File {
    type Error = char;

    /// The file written as `c`, or `c` itself when no file is.
    fn try_from(c: char) -> (r: Result<File, char>) {
        if c == 'a' {
            Ok(File::A)
        } else if c == 'b' {
            Ok(File::B)
        } else if c == 'c' {
            Ok(File::C)
        } else if c == 'd' {
            Ok(File::D)
        } else if c == 'e' {
            Ok(File::E)
        } else if c == 'f' {
            Ok(File::F)
        } else if c == 'g' {
            Ok(File::G)
        } else if c == 'h' {
            Ok(File::H)
        } else {
            Err(c)
        }
    }
}

impl vstd::std_specs::convert::TryFromSpecImpl<char> for File {
    open spec fn obeys_try_from_spec() -> bool {
        true
    }

    open spec fn try_from_spec(c: char) -> Result<File, char> {
        if c == 'a' {
            Ok(File::A)
        } else if c == 'b' {
            Ok(File::B)
        } else if c == 'c' {
            Ok(File::C)
        } else if c == 'd' {
            Ok(File::D)
        } else if c == 'e' {
            Ok(File::E)
        } else if c == 'f' {
            Ok(File::F)
        } else if c == 'g' {
            Ok(File::G)
        } else if c == 'h' {
            Ok(File::H)
        } else {
            Err(c)
        }
    }
}

/// The coordinates of a square on a chessboard.
#[derive(Clone, Copy, PartialEq, Eq, Debug, Structural)]
pub struct Coords(pub File, pub Rank);

impl From<Coords> for Square {
    /// The square at the given file and rank.
    fn from(c: Coords) -> (r: Square) {
        Square(c.1.index() * 8 + c.0.index())
    }
}

impl vstd::std_specs::convert::FromSpecImpl<Coords> for Square {
    open spec fn obeys_from_spec() -> bool {
        true
    }

    open spec fn from_spec(c: Coords) -> Square {
        Square((c.1.idx() * 8 + c.0.idx()) as u32)
    }
}

impl From<Square> for usize {
    /// The index of the square, for use as an index into a sequence.
    fn from(s: Square) -> (r: usize) {
        s.0 as usize
    }
}

impl vstd::std_specs::convert::FromSpecImpl<Square> for usize {
    open spec fn obeys_from_spec() -> bool {
        true
    }

    open spec fn from_spec(s: Square) -> usize {
        s.0 as usize
    }
}

/// Whether bit `i` of `x` is set.
pub open spec fn bit(x: u64, i: int) -> bool {
    0 <= i < 64 && (x >> (i as u64)) & 1u64 == 1u64
}

/// The set of indices of the set bits of `x`.
pub open spec fn bits_of(x: u64) -> Set<int> {
    Set::new(|i: int| bit(x, i))
}

/// The set bits of `x` whose index is below `n`.
pub open spec fn bits_below(x: u64, n: int) -> Set<int> {
    Set::new(|i: int| i < n && bit(x, i))
}

/// The squares of the rank at position `r`.
pub open spec fn rank_squares(r: int) -> Set<int> {
    Set::new(|i: int| 0 <= i < 64 && i / 8 == r)
}

/// The squares of the file at position `f`.
pub open spec fn file_squares(f: int) -> Set<int> {
    Set::new(|i: int| 0 <= i < 64 && i % 8 == f)
}

/// The indices of all squares of the board.
pub open spec fn all_squares() -> Set<int> {
    Set::new(|i: int| 0 <= i < 64)
}

proof fn lemma_and(x: u64, y: u64, i: u64)
    by (bit_vector)
    requires
        i < 64,
    ensures
        ((x & y) >> i) & 1u64 == 1u64 <==> ((x >> i) & 1u64 == 1u64 && (y >> i) & 1u64 == 1u64),
{
}

proof fn lemma_or(x: u64, y: u64, i: u64)
    by (bit_vector)
    requires
        i < 64,
    ensures
        ((x | y) >> i) & 1u64 == 1u64 <==> ((x >> i) & 1u64 == 1u64 || (y >> i) & 1u64 == 1u64),
{
}

proof fn lemma_xor(x: u64, y: u64, i: u64)
    by (bit_vector)
    requires
        i < 64,
    ensures
        ((x ^ y) >> i) & 1u64 == 1u64 <==> ((x >> i) & 1u64 == 1u64) != ((y >> i) & 1u64
            == 1u64),
{
}

proof fn lemma_not(x: u64, i: u64)
    by (bit_vector)
    requires
        i < 64,
    ensures
        ((!x) >> i) & 1u64 == 1u64 <==> (x >> i) & 1u64 != 1u64,
{
}

proof fn lemma_single(k: u64, i: u64)
    by (bit_vector)
    requires
        k < 64,
        i < 64,
    ensures
        ((1u64 << k) >> i) & 1u64 == 1u64 <==> i == k,
{
}

proof fn lemma_zero(i: u64)
    by (bit_vector)
    ensures
        (0u64 >> i) & 1u64 != 1u64,
{
}

proof fn lemma_bit_differs(x: u64, y: u64, t: u64)
    by (bit_vector)
    requires
        ((x ^ y) >> t) & 1u64 == 1u64,
    ensures
        (x >> t) & 1u64 != (y >> t) & 1u64,
{
}

proof fn lemma_bit_values(x: u64, i: u64)
    by (bit_vector)
    ensures
        (x >> i) & 1u64 != 1u64 ==> (x >> i) & 1u64 == 0u64,
{
}

/// Two words with the same bits are equal.
pub proof fn lemma_bits_ext(x: u64, y: u64)
    requires
        bits_of(x) == bits_of(y),
    ensures
        x == y,
{
    if x != y {
        let d = x ^ y;
        assert(d != 0) by (bit_vector)
            requires
                x != y,
                d == x ^ y,
        ;
        broadcast use vstd::std_specs::bits::axiom_u64_trailing_zeros;
        let t = d.trailing_zeros();
        assert(u64_trailing_zeros(d) < 64);
        assert((d >> (t as u64)) & 1u64 == 1u64);
        lemma_bit_differs(x, y, t as u64);
        lemma_bit_values(x, t as u64);
        lemma_bit_values(y, t as u64);
        let ti = t as int;
        assert(ti as u64 == t as u64);
        assert(bit(x, ti) != bit(y, ti));
        assert(bits_of(x).contains(ti) == bit(x, ti));
        assert(bits_of(y).contains(ti) == bit(y, ti));
    }
}

/// The bits of a word are finite and lie on the board.
pub proof fn lemma_bits_finite(x: u64)
    ensures
        bits_of(x).finite(),
        bits_of(x).subset_of(all_squares()),
{
    vstd::set_lib::lemma_int_range(0, 64);
    assert(bits_of(x) =~= vstd::set_lib::set_int_range(0, 64).filter(|i: int| bit(x, i)));
    assert(bits_of(x).subset_of(all_squares()));
}

/// An occupancy set for a chessboard: bit `i` is set when square `i` is in the set.
#[derive(Clone, Copy, PartialEq, Eq, Debug, Default, PartialOrd, Ord, Hash, Structural)]
pub struct Bitboard(pub u64);

impl View for Bitboard {
    type V = Set<int>;

    /// The indices of the squares in the set.
    open spec fn view(&self) -> Set<int> {
        bits_of(self.0)
    }
}

/// # Create methods
impl Bitboard {
    /// Creates a new bitboard from a word.
    pub fn new(value: u64) -> (r: Bitboard)
        ensures
            r.0 == value,
            r@ == bits_of(value),
    {
        Bitboard(value)
    }

    /// Creates an empty bitboard.
    pub fn empty() -> (r: Bitboard)
        ensures
            r@ == Set::<int>::empty(),
            r.0 == 0,
    {
        proof {
            assert forall|i: int| !bits_of(0u64).contains(i) by {
                lemma_zero(i as u64);
            }
            assert(bits_of(0u64) =~= Set::<int>::empty());
        }
        Bitboard(0u64)
    }

    /// Creates a full bitboard.
    pub fn full() -> (r: Bitboard)
        ensures
            r@ == all_squares(),
    {
        proof {
            assert forall|i: int| 0 <= i < 64 implies bits_of(!0u64).contains(i) by {
                let k = i as u64;
                assert(((!0u64) >> k) & 1u64 == 1u64) by (bit_vector)
                    requires
                        k < 64,
                ;
            }
            assert(bits_of(!0u64) =~= all_squares());
        }
        Bitboard(!0u64)
    }

    /// Creates a bitboard with the squares of rank `r` set.
    pub fn rank(r: Rank) -> (b: Bitboard)
        ensures
            b@ == rank_squares(r.idx()),
    {
        let k = r.index() as u64;
        let v = 0xFFu64 << (8 * k);
        proof {
            assert forall|i: int| bits_of(v).contains(i) <==> rank_squares(r.idx()).contains(i) by {
                if 0 <= i < 64 {
                    let j = i as u64;
                    assert(((0xFFu64 << (8 * k)) >> j) & 1u64 == 1u64 <==> j / 8 == k)
                        by (bit_vector)
                        requires
                            j < 64,
                            k < 8,
                    ;
                }
            }
            assert(bits_of(v) =~= rank_squares(r.idx()));
        }
        Bitboard(v)
    }

    /// Creates a bitboard with the squares of file `f` set.
    pub fn file(f: File) -> (b: Bitboard)
        ensures
            b@ == file_squares(f.idx()),
    {
        let k = f.index() as u64;
        let v = 0x0101_0101_0101_0101u64 << k;
        proof {
            assert forall|i: int| bits_of(v).contains(i) <==> file_squares(f.idx()).contains(i) by {
                if 0 <= i < 64 {
                    let j = i as u64;
                    assert(((0x0101_0101_0101_0101u64 << k) >> j) & 1u64 == 1u64 <==> j % 8 == k)
                        by (bit_vector)
                        requires
                            j < 64,
                            k < 8,
                    ;
                }
            }
            assert(bits_of(v) =~= file_squares(f.idx()));
        }
        Bitboard(v)
    }

    /// Creates a bitboard holding the square `s` alone.
    pub fn square(s: Square) -> (b: Bitboard)
        requires
            s.valid(),
        ensures
            b@ == set![s.idx()],
    {
        let k = s.0 as u64;
        proof {
            assert forall|i: int| bits_of(1u64 << k).contains(i) <==> i == s.idx() by {
                if 0 <= i < 64 {
                    lemma_single(k, i as u64);
                }
            }
            assert(bits_of(1u64 << k) =~= set![s.idx()]);
        }
        Bitboard(1u64 << k)
    }

    /// Creates a bitboard holding the square at coordinates `c` alone.
    pub fn coords(c: Coords) -> (b: Bitboard)
        ensures
            b@ == set![c.1.idx() * 8 + c.0.idx()],
    {
        Bitboard::square(Square::from(c))
    }
}

/// # Read methods
impl Bitboard {
    /// Returns `true` if the bitboard is empty.
    pub fn is_empty(self) -> (r: bool)
        ensures
            r == (self@ == Set::<int>::empty()),
    {
        proof {
            Bitboard::lemma_empty_iff_zero(self.0);
        }
        self.0 == 0u64
    }

    /// Returns `true` if the bitboard is nonempty.
    pub fn is_any(self) -> (r: bool)
        ensures
            r == (self@ != Set::<int>::empty()),
    {
        proof {
            Bitboard::lemma_empty_iff_zero(self.0);
        }
        self.0 != 0u64
    }

    proof fn lemma_empty_iff_zero(x: u64)
        ensures
            (bits_of(x) == Set::<int>::empty()) == (x == 0),
    {
        assert forall|i: int| !bits_of(0u64).contains(i) by {
            lemma_zero(i as u64);
        }
        assert(bits_of(0u64) =~= Set::<int>::empty());
        if bits_of(x) == Set::<int>::empty() {
            lemma_bits_ext(x, 0u64);
        }
    }

    /// Returns `true` if the bitboard holds exactly one square.
    pub fn is_singular(self) -> (r: bool)
        ensures
            r == (self@.len() == 1),
    {
        self.count() == 1
    }

    /// Returns `true` if the bitboard contains the square `s`.
    pub fn contains(self, s: Square) -> (r: bool)
        requires
            s.valid(),
        ensures
            r == self@.contains(s.idx()),
    {
        (self.0 >> (s.0 as u64)) & 1u64 == 1u64
    }

    /// Returns the number of squares in the bitboard.
    pub fn count(self) -> (r: u32)
        ensures
            r == self@.len(),
            r <= 64,
    {
        let x = self.0;
        let mut n: u32 = 0;
        let mut i: u64 = 0;
        proof {
            assert(bits_below(x, 0) =~= Set::<int>::empty());
        }
        while i < 64
            invariant
                i <= 64,
                n <= i,
                bits_below(x, i as int).finite(),
                n == bits_below(x, i as int).len(),
            decreases 64 - i,
        {
            let ghost before = bits_below(x, i as int);
            if (x >> i) & 1u64 == 1u64 {
                proof {
                    assert(bits_below(x, i + 1) =~= before.insert(i as int));
                    assert(!before.contains(i as int));
                }
                n = n + 1;
            } else {
                proof {
                    assert(bits_below(x, i + 1) =~= before);
                }
            }
            i = i + 1;
        }
        proof {
            assert(bits_below(x, 64) =~= bits_of(x));
        }
        n
    }

    /// Returns the square with the highest index, or `None` if the bitboard is empty.
    pub fn largest_square(self) -> (r: Option<Square>)
        ensures
            r is None <==> self@ == Set::<int>::empty(),
            r matches Some(s) ==> s.valid() && self@.contains(s.idx()) && forall|j: int|
                #[trigger] self@.contains(j) ==> j <= s.idx(),
    {
        proof {
            Bitboard::lemma_empty_iff_zero(self.0);
        }
        if self.0 == 0u64 {
            None
        } else {
            let z = self.0.leading_zeros();
            proof {
                broadcast use vstd::std_specs::bits::axiom_u64_leading_zeros;
                assert(u64_leading_zeros(self.0) < 64);
                let k = (63 - z) as u64;
                assert(vstd::prelude::sub(63u64, u64_leading_zeros(self.0) as u64) == k);
                let x = self.0;
                assert((x >> k) & 1u64 != 0u64);
                lemma_bit_values(x, k);
                assert(bit(x, k as int));
                assert forall|j: int| #[trigger] self@.contains(j) implies j <= k as int by {
                    if j > k {
                        assert(64 - u64_leading_zeros(x) <= j as u64);
                        assert((x >> (j as u64)) & 1u64 == 0u64);
                    }
                }
            }
            Some(Square(63 - z))
        }
    }

    /// Returns the square with the lowest index, or `None` if the bitboard is empty.
    pub fn smallest_square(self) -> (r: Option<Square>)
        ensures
            r is None <==> self@ == Set::<int>::empty(),
            r matches Some(s) ==> s.valid() && self@.contains(s.idx()) && forall|j: int|
                #[trigger] self@.contains(j) ==> s.idx() <= j,
    {
        proof {
            Bitboard::lemma_empty_iff_zero(self.0);
        }
        if self.0 == 0u64 {
            None
        } else {
            let z = self.0.trailing_zeros();
            proof {
                broadcast use vstd::std_specs::bits::axiom_u64_trailing_zeros;
                let x = self.0;
                assert(u64_trailing_zeros(x) < 64);
                assert((x >> (z as u64)) & 1u64 == 1u64);
                assert(bit(x, z as int));
                assert forall|j: int| #[trigger] self@.contains(j) implies z as int <= j by {
                    if j < z {
                        assert((x >> (j as u64)) & 1u64 == 0u64);
                    }
                }
            }
            Some(Square(z))
        }
    }
}

/// # Update methods
impl Bitboard {
    /// Inserts the square `s`; returns `true` if it was not in the bitboard before.
    pub fn insert(&mut self, s: Square) -> (r: bool)
        requires
            s.valid(),
        ensures
            final(self)@ == old(self)@.insert(s.idx()),
            r == !old(self)@.contains(s.idx()),
    {
        let c = !self.contains(s);
        let k = s.0 as u64;
        let x = self.0;
        proof {
            assert forall|i: int| bits_of(x | (1u64 << k)).contains(i) <==> bits_of(x).insert(
                s.idx(),
            ).contains(i) by {
                if 0 <= i < 64 {
                    lemma_or(x, 1u64 << k, i as u64);
                    lemma_single(k, i as u64);
                }
            }
            assert(bits_of(x | (1u64 << k)) =~= bits_of(x).insert(s.idx()));
        }
        self.0 = x | (1u64 << k);
        c
    }

    /// Removes the square `s`; returns `true` if it was in the bitboard before.
    pub fn remove(&mut self, s: Square) -> (r: bool)
        requires
            s.valid(),
        ensures
            final(self)@ == old(self)@.remove(s.idx()),
            r == old(self)@.contains(s.idx()),
    {
        let c = self.contains(s);
        let k = s.0 as u64;
        let x = self.0;
        proof {
            assert forall|i: int| bits_of(x & !(1u64 << k)).contains(i) <==> bits_of(x).remove(
                s.idx(),
            ).contains(i) by {
                if 0 <= i < 64 {
                    lemma_and(x, !(1u64 << k), i as u64);
                    lemma_not(1u64 << k, i as u64);
                    lemma_single(k, i as u64);
                }
            }
            assert(bits_of(x & !(1u64 << k)) =~= bits_of(x).remove(s.idx()));
        }
        self.0 = x & !(1u64 << k);
        c
    }
}

/// # Set algebra
impl Bitboard {
    /// The squares in either bitboard.
    pub fn union(self, o: Bitboard) -> (r: Bitboard)
        ensures
            r@ == self@.union(o@),
    {
        proof {
            assert forall|i: int| bits_of(self.0 | o.0).contains(i) <==> self@.union(o@).contains(
                i,
            ) by {
                if 0 <= i < 64 {
                    lemma_or(self.0, o.0, i as u64);
                }
            }
            assert(bits_of(self.0 | o.0) =~= self@.union(o@));
        }
        Bitboard(self.0 | o.0)
    }

    /// The squares in both bitboards.
    pub fn intersection(self, o: Bitboard) -> (r: Bitboard)
        ensures
            r@ == self@.intersect(o@),
    {
        proof {
            assert forall|i: int| bits_of(self.0 & o.0).contains(i) <==> self@.intersect(
                o@,
            ).contains(i) by {
                if 0 <= i < 64 {
                    lemma_and(self.0, o.0, i as u64);
                }
            }
            assert(bits_of(self.0 & o.0) =~= self@.intersect(o@));
        }
        Bitboard(self.0 & o.0)
    }

    /// The squares in exactly one of the bitboards.
    pub fn symmetric_difference(self, o: Bitboard) -> (r: Bitboard)
        ensures
            r@ == self@.difference(o@).union(o@.difference(self@)),
    {
        proof {
            assert forall|i: int| bits_of(self.0 ^ o.0).contains(i) <==> self@.difference(
                o@,
            ).union(o@.difference(self@)).contains(i) by {
                if 0 <= i < 64 {
                    lemma_xor(self.0, o.0, i as u64);
                }
            }
            assert(bits_of(self.0 ^ o.0) =~= self@.difference(o@).union(o@.difference(self@)));
        }
        Bitboard(self.0 ^ o.0)
    }

    /// The squares of the board that are not in the bitboard.
    pub fn complement(self) -> (r: Bitboard)
        ensures
            r@ == all_squares().difference(self@),
    {
        proof {
            assert forall|i: int| bits_of(!self.0).contains(i) <==> all_squares().difference(
                self@,
            ).contains(i) by {
                if 0 <= i < 64 {
                    lemma_not(self.0, i as u64);
                }
            }
            assert(bits_of(!self.0) =~= all_squares().difference(self@));
        }
        Bitboard(!self.0)
    }

    /// Returns `true` if every square of `self` is in `o`.
    pub fn is_subset(self, o: Bitboard) -> (r: bool)
        ensures
            r == self@.subset_of(o@),
    {
        let i = self.intersection(o);
        proof {
            if self@.subset_of(o@) {
                assert(i@ =~= self@);
                lemma_bits_ext(i.0, self.0);
            }
        }
        i.0 == self.0
    }
}

impl std::ops::BitOr for Bitboard {
    type Output = Bitboard;

    /// Union of two bitboards.
    fn bitor(self, rhs: Bitboard) -> (r: Bitboard) {
        Bitboard(self.0 | rhs.0)
    }
}

impl vstd::std_specs::ops::BitOrSpecImpl for Bitboard {
    open spec fn obeys_bitor_spec() -> bool {
        true
    }

    open spec fn bitor_req(self, rhs: Bitboard) -> bool {
        true
    }

    open spec fn bitor_spec(self, rhs: Bitboard) -> Bitboard {
        Bitboard(self.0 | rhs.0)
    }
}

impl std::ops::BitAnd for Bitboard {
    type Output = Bitboard;

    /// Intersection of two bitboards.
    fn bitand(self, rhs: Bitboard) -> (r: Bitboard) {
        Bitboard(self.0 & rhs.0)
    }
}

impl vstd::std_specs::ops::BitAndSpecImpl for Bitboard {
    open spec fn obeys_bitand_spec() -> bool {
        true
    }

    open spec fn bitand_req(self, rhs: Bitboard) -> bool {
        true
    }

    open spec fn bitand_spec(self, rhs: Bitboard) -> Bitboard {
        Bitboard(self.0 & rhs.0)
    }
}

impl std::ops::BitXor for Bitboard {
    type Output = Bitboard;

    /// Symmetric difference of two bitboards.
    fn bitxor(self, rhs: Bitboard) -> (r: Bitboard) {
        Bitboard(self.0 ^ rhs.0)
    }
}

impl vstd::std_specs::ops::BitXorSpecImpl for Bitboard {
    open spec fn obeys_bitxor_spec() -> bool {
        true
    }

    open spec fn bitxor_req(self, rhs: Bitboard) -> bool {
        true
    }

    open spec fn bitxor_spec(self, rhs: Bitboard) -> Bitboard {
        Bitboard(self.0 ^ rhs.0)
    }
}

impl std::ops::Not for Bitboard {
    type Output = Bitboard;

    /// Complement of a bitboard.
    fn not(self) -> (r: Bitboard) {
        Bitboard(!self.0)
    }
}

impl vstd::std_specs::ops::NotSpecImpl for Bitboard {
    open spec fn obeys_not_spec() -> bool {
        true
    }

    open spec fn not_req(self) -> bool {
        true
    }

    open spec fn not_spec(self) -> Bitboard {
        Bitboard(!self.0)
    }
}

impl std::ops::BitOrAssign for Bitboard {
    fn bitor_assign(&mut self, rhs: Bitboard) {
        self.0 = self.0 | rhs.0;
    }
}

impl std::ops::BitAndAssign for Bitboard {
    fn bitand_assign(&mut self, rhs: Bitboard) {
        self.0 = self.0 & rhs.0;
    }
}

impl std::ops::BitXorAssign for Bitboard {
    fn bitxor_assign(&mut self, rhs: Bitboard) {
        self.0 = self.0 ^ rhs.0;
    }
}

// The subset step `(s - m) & m` (the subtraction wrapping) stays within `m`,
// grows while `s` is not yet `m`, and skips no subset of `m`.
proof fn lemma_next_subset_is_subset(s: u64, m: u64)
    by (bit_vector)
    ensures
        (((s - m) as u64) & m) & m == ((s - m) as u64) & m,
{
}

proof fn lemma_next_subset_grows(s: u64, m: u64)
    by (bit_vector)
    requires
        s & m == s,
        s != m,
    ensures
        s < ((s - m) as u64) & m,
{
}

proof fn lemma_next_subset_least(s: u64, m: u64, t: u64)
    by (bit_vector)
    requires
        s & m == s,
        t & m == t,
        s < t,
    ensures
        ((s - m) as u64) & m <= t,
{
}

/// The point reflection of a set of square indices through the board's center.
pub open spec fn flip_set(v: Set<int>) -> Set<int> {
    Set::new(|i: int| 0 <= i < 64 && v.contains(flip_index(i)))
}

proof fn lemma_set_flip_bit(r: u64, k: u64, j: u64)
    by (bit_vector)
    requires
        k < 64,
        j < 64,
    ensures
        ((r | (1u64 << (63 - k) as u64)) >> j) & 1u64 == 1u64 <==> ((r >> j) & 1u64 == 1u64 || j
            == 63 - k),
{
}

/// A subset of a word's bits is the same as a word that the mask leaves unchanged.
pub proof fn lemma_subset_word(t: u64, m: u64)
    ensures
        bits_of(t).subset_of(bits_of(m)) <==> t & m == t,
{
    if t & m == t {
        assert forall|i: int| bits_of(t).contains(i) implies bits_of(m).contains(i) by {
            lemma_and(t, m, i as u64);
        }
    }
    if bits_of(t).subset_of(bits_of(m)) {
        assert forall|i: int| bits_of(t & m).contains(i) <==> bits_of(t).contains(i) by {
            if 0 <= i < 64 {
                lemma_and(t, m, i as u64);
            }
        }
        assert(bits_of(t & m) =~= bits_of(t));
        lemma_bits_ext(t & m, t);
    }
}

proof fn lemma_flip_step(r0: u64, x: u64, i: u64, j: int)
    requires
        i < 64,
        0 <= j < 64,
        bit(r0, j) <==> (63 - j < i && bit(x, 63 - j)),
        (x >> i) & 1u64 == 1u64,
    ensures
        bit(r0 | (1u64 << (63 - i) as u64), j) <==> (63 - j < i + 1 && bit(x, 63 - j)),
{
    lemma_set_flip_bit(r0, i, j as u64);
    if j == 63 - i {
        assert(((63 - j) as u64) == i);
    }
}

impl Flippable for Bitboard {
    open spec fn well_formed(&self) -> bool {
        true
    }

    /// Reverses the bit order: square `i` goes to square `63 - i`.
    fn flipped(&self) -> (r: Bitboard)
        ensures
            r@ == flip_set(self@),
    {
        let x = self.0;
        let mut r: u64 = 0;
        let mut i: u64 = 0;
        proof {
            assert forall|j: int| 0 <= j < 64 implies !bit(0u64, j) by {
                lemma_zero(j as u64);
            }
        }
        while i < 64
            invariant
                i <= 64,
                forall|j: int|
                    0 <= j < 64 ==> (bit(r, j) <==> (63 - j < i && bit(x, 63 - j))),
            decreases 64 - i,
        {
            if (x >> i) & 1u64 == 1u64 {
                let ghost r0 = r;
                r = r | (1u64 << (63 - i));
                proof {
                    assert(r == r0 | (1u64 << (63 - i) as u64));
                    assert forall|j: int|
                        0 <= j < 64 implies (bit(r, j) <==> (63 - j < i + 1 && bit(x, 63 - j))) by {
                        lemma_flip_step(r0, x, i, j);
                    }
                }
            } else {
                proof {
                    assert forall|j: int|
                        0 <= j < 64 implies (bit(r, j) <==> (63 - j < i + 1 && bit(x, 63 - j))) by {
                        if j == 63 - i {
                            assert(((63 - j) as u64) == i);
                        }
                    }
                }
            }
            i = i + 1;
        }
        proof {
            assert(bits_of(r) =~= flip_set(self@));
        }
        Bitboard(r)
    }
}

/// # Enumeration
impl Bitboard {
    /// Removes and returns the square with the highest index, or returns `None`
    /// when the bitboard is empty.
    pub fn pop_largest(&mut self) -> (r: Option<Square>)
        ensures
            r is None <==> old(self)@ == Set::<int>::empty(),
            r is None ==> *final(self) == *old(self),
            r matches Some(s) ==> s.valid() && old(self)@.contains(s.idx()) && final(self)@
                == old(self)@.remove(s.idx()) && forall|j: int|
                #[trigger] old(self)@.contains(j) ==> j <= s.idx(),
    {
        let s = self.largest_square();
        match s {
            Some(sq) => {
                self.remove(sq);
            },
            None => {},
        }
        s
    }

    /// Returns the squares of the bitboard, from the highest index to the lowest.
    pub fn squares(self) -> (r: Vec<Square>)
        ensures
            r@.len() == self@.len(),
            forall|k: int| 0 <= k < r@.len() ==> (#[trigger] r@[k]).valid() && self@.contains(
                r@[k].idx(),
            ),
            forall|i: int| #[trigger] self@.contains(i) ==> exists|k: int|
                0 <= k < r@.len() && (#[trigger] r@[k]).idx() == i,
            forall|a: int, b: int| 0 <= a < b < r@.len() ==> r@[a].idx() > r@[b].idx(),
    {
        let mut rest = self;
        let mut v: Vec<Square> = Vec::new();
        proof {
            lemma_bits_finite(self.0);
        }
        loop
            invariant
                rest@.subset_of(self@),
                rest@.finite(),
                v@.len() + rest@.len() == self@.len(),
                forall|k: int| 0 <= k < v@.len() ==> (#[trigger] v@[k]).valid() && self@.contains(
                    v@[k].idx(),
                ) && !rest@.contains(v@[k].idx()),
                forall|i: int| #[trigger] self@.contains(i) ==> rest@.contains(i) || exists|k: int|
                    0 <= k < v@.len() && (#[trigger] v@[k]).idx() == i,
                forall|k: int, j: int|
                    0 <= k < v@.len() && #[trigger] rest@.contains(j) ==> j < (#[trigger] v@[k]).idx(),
                forall|a: int, b: int| 0 <= a < b < v@.len() ==> v@[a].idx() > v@[b].idx(),
            ensures
                v@.len() == self@.len(),
                forall|i: int| #[trigger] self@.contains(i) ==> exists|k: int|
                    0 <= k < v@.len() && (#[trigger] v@[k]).idx() == i,
            decreases rest@.len(),
        {
            let ghost before = rest@;
            match rest.pop_largest() {
                Some(sq) => {
                    proof {
                        assert(rest@.len() == before.len() - 1);
                        assert forall|i: int| #[trigger] self@.contains(i) implies rest@.contains(
                            i,
                        ) || exists|k: int| 0 <= k < v@.len() + 1 && (#[trigger] v@.push(
                            sq,
                        )[k]).idx() == i by {
                            if i == sq.idx() {
                                assert(v@.push(sq)[v@.len() as int] == sq);
                            } else if !rest@.contains(i) {
                                let k = choose|k: int| 0 <= k < v@.len() && (#[trigger] v@[k]).idx() == i;
                                assert(v@.push(sq)[k] == v@[k]);
                            }
                        }
                    }
                    v.push(sq);
                },
                None => {
                    proof {
                        assert(rest@ == before);
                        assert(rest@ =~= Set::<int>::empty());
                        assert(rest@.len() == 0);
                        assert forall|i: int| #[trigger] self@.contains(i) implies exists|k: int|
                            0 <= k < v@.len() && (#[trigger] v@[k]).idx() == i by {
                            assert(!rest@.contains(i));
                        }
                    }
                    break ;
                },
            }
        }
        v
    }

    /// Returns every subset of the bitboard, the empty one and the bitboard
    /// itself included, in ascending order of their words.
    ///
    /// Each subset follows from the previous one by `next = (subset - mask) & mask`.
    pub fn subsets(self) -> (r: Vec<Bitboard>)
        ensures
            forall|k: int| 0 <= k < r@.len() ==> (#[trigger] r@[k])@.subset_of(self@),
            forall|b: Bitboard| b@.subset_of(self@) ==> r@.contains(b),
            forall|a: int, b: int| 0 <= a < b < r@.len() ==> r@[a].0 < r@[b].0,
            r@.no_duplicates(),
            r@.to_set() == subset_boards(self),
            r@.len() == vstd::arithmetic::power2::pow2(self@.len()),
    {
        let m = self.0;
        let mut v: Vec<Bitboard> = Vec::new();
        let mut sub: u64 = 0;
        proof {
            assert(0u64 & m == 0u64) by (bit_vector);
        }
        loop
            invariant_except_break
                sub & m == sub,
                forall|k: int| 0 <= k < v@.len() ==> (#[trigger] v@[k]).0 < sub,
                forall|t: u64| t & m == t && t < sub ==> v@.contains(Bitboard(t)),
            invariant
                forall|k: int| 0 <= k < v@.len() ==> (#[trigger] v@[k]).0 & m == v@[k].0,
                forall|a: int, b: int| 0 <= a < b < v@.len() ==> v@[a].0 < v@[b].0,
            ensures
                forall|t: u64| t & m == t ==> v@.contains(Bitboard(t)),
            decreases m - sub,
        {
            proof {
                assert(sub & m == sub ==> sub <= m) by (bit_vector);
            }
            let ghost old_v = v@;
            v.push(Bitboard(sub));
            proof {
                assert(v@[old_v.len() as int] == Bitboard(sub));
                assert forall|t: u64| t & m == t && t <= sub implies v@.contains(Bitboard(t)) by {
                    if t < sub {
                        assert(old_v.contains(Bitboard(t)));
                        let k = choose|k: int| 0 <= k < old_v.len() && old_v[k] == Bitboard(t);
                        assert(v@[k] == Bitboard(t));
                    } else {
                        assert(v@[old_v.len() as int] == Bitboard(t));
                    }
                }
            }
            if sub == m {
                proof {
                    assert forall|t: u64| t & m == t implies v@.contains(Bitboard(t)) by {
                        assert(t & m == t ==> t <= m) by (bit_vector);
                    }
                }
                break ;
            }
            let ghost prev = sub;
            sub = sub.wrapping_sub(m) & m;
            proof {
                assert(sub == ((prev - m) as u64) & m) by (bit_vector)
                    requires
                        sub == (if prev - m < 0 { (prev - m + 0x1_0000_0000_0000_0000) as u64 } else { (prev - m) as u64 }) & m,
                ;
                lemma_next_subset_is_subset(prev, m);
                lemma_next_subset_grows(prev, m);
                assert(sub & m == sub ==> sub <= m) by (bit_vector);
                assert forall|t: u64| t & m == t && t < sub implies v@.contains(Bitboard(t)) by {
                    if t > prev {
                        lemma_next_subset_least(prev, m, t);
                    }
                }
            }
        }
        proof {
            assert forall|k: int| 0 <= k < v@.len() implies (#[trigger] v@[k])@.subset_of(self@) by {
                lemma_subset_word(v@[k].0, m);
            }
            assert forall|b: Bitboard| b@.subset_of(self@) implies v@.contains(b) by {
                lemma_subset_word(b.0, m);
                assert(b == Bitboard(b.0));
            }
            Bitboard::lemma_enumeration_len(self, v@);
        }
        v
    }

    proof fn lemma_enumeration_len(self, v: Seq<Bitboard>)
        requires
            forall|k: int| 0 <= k < v.len() ==> (#[trigger] v[k])@.subset_of(self@),
            forall|b: Bitboard| b@.subset_of(self@) ==> v.contains(b),
            v.no_duplicates(),
        ensures
            v.to_set() == subset_boards(self),
            v.len() == vstd::arithmetic::power2::pow2(self@.len()),
    {
        assert(v.to_set() =~= subset_boards(self));
        v.unique_seq_to_set();
        lemma_subset_count(self);
    }

    /// Returns every subset of the bitboard, the empty one and the bitboard
    /// itself included, built bit by bit: for each square of the bitboard in
    /// ascending order, each subset found so far is kept and also extended
    /// by that square.
    pub fn subsets_slow(self) -> (r: Vec<Bitboard>)
        ensures
            forall|k: int| 0 <= k < r@.len() ==> (#[trigger] r@[k])@.subset_of(self@),
            forall|b: Bitboard| b@.subset_of(self@) ==> r@.contains(b),
            r@.no_duplicates(),
            r@.to_set() == subset_boards(self),
            r@.len() == vstd::arithmetic::power2::pow2(self@.len()),
    {
        let m = self.0;
        let mut v: Vec<Bitboard> = Vec::new();
        v.push(Bitboard(0));
        proof {
            assert forall|b: Bitboard| b@.subset_of(bits_below(m, 0)) implies v@.contains(b) by {
                assert(b@ =~= Set::<int>::empty());
                assert forall|j: int| !bits_of(0u64).contains(j) by {
                    lemma_zero(j as u64);
                }
                assert(bits_of(0u64) =~= Set::<int>::empty());
                lemma_bits_ext(b.0, 0u64);
                assert(v@[0] == b);
            }
            assert forall|j: int| !bits_of(0u64).contains(j) by {
                lemma_zero(j as u64);
            }
            assert(v@[0]@.subset_of(bits_below(m, 0)));
        }
        let mut i: u64 = 0;
        while i < 64
            invariant
                i <= 64,
                forall|k: int| 0 <= k < v@.len() ==> (#[trigger] v@[k])@.subset_of(bits_below(m, i as int)),
                forall|b: Bitboard| b@.subset_of(bits_below(m, i as int)) ==> v@.contains(b),
                v@.no_duplicates(),
            decreases 64 - i,
        {
            if (m >> i) & 1u64 == 1u64 {
                let ghost old_v = v@;
                let n = v.len();
                let b = 1u64 << i;
                let mut j: usize = 0;
                while j < n
                    invariant
                        j <= n,
                        n == old_v.len(),
                        b == 1u64 << i,
                        v@.len() == n + j,
                        forall|q: int| 0 <= q < n ==> #[trigger] v@[q] == old_v[q],
                        forall|q: int| 0 <= q < j ==> #[trigger] v@[n + q] == Bitboard(old_v[q].0 | b),
                    decreases n - j,
                {
                    let x = v[j].0 | b;
                    v.push(Bitboard(x));
                    j += 1;
                }
                proof {
                    let k = i as int;
                    assert(bits_below(m, k + 1) =~= bits_below(m, k).insert(k));
                    assert forall|q: int| 0 <= q < n implies !(#[trigger] old_v[q])@.contains(k) by {
                    }
                    assert forall|q: int| 0 <= q < v@.len() implies (#[trigger] v@[q])@.subset_of(bits_below(m, k + 1)) by {
                        if q >= n {
                            assert(v@[n + (q - n)] == Bitboard(old_v[q - n].0 | b));
                            lemma_add_bit(old_v[q - n].0, i);
                        } else {
                            assert(v@[q] == old_v[q]);
                        }
                    }
                    assert forall|c: Bitboard| c@.subset_of(bits_below(m, k + 1)) implies v@.contains(c) by {
                        if c@.contains(k) {
                            let d = Bitboard(c.0 & !b);
                            lemma_add_bit(c.0, i);
                            assert(d@.subset_of(bits_below(m, k)));
                            assert(old_v.contains(d));
                            let q = choose|q: int| 0 <= q < n && old_v[q] == d;
                            lemma_add_bit(d.0, i);
                            assert(bits_of(d.0 | b) =~= c@);
                            lemma_bits_ext(d.0 | b, c.0);
                            assert(v@[n + q] == c);
                        } else {
                            assert(c@.subset_of(bits_below(m, k)));
                            assert(old_v.contains(c));
                            let q = choose|q: int| 0 <= q < n && old_v[q] == c;
                            assert(v@[q] == c);
                        }
                    }
                    assert forall|p: int, q: int| 0 <= p < v@.len() && 0 <= q < v@.len() && p != q implies v@[p] != v@[q] by {
                        if p < n && q < n {
                        } else if p >= n && q >= n {
                            assert(v@[n + (p - n)] == Bitboard(old_v[p - n].0 | b));
                            assert(v@[n + (q - n)] == Bitboard(old_v[q - n].0 | b));
                            assert(!old_v[p - n]@.contains(k));
                            assert(!old_v[q - n]@.contains(k));
                            if v@[p] == v@[q] {
                                lemma_or_injective(old_v[p - n].0, old_v[q - n].0, i);
                            }
                        } else if p < n {
                            assert(v@[n + (q - n)] == Bitboard(old_v[q - n].0 | b));
                            assert(v@[p] == old_v[p]);
                            lemma_add_bit(old_v[q - n].0, i);
                            assert(v@[q]@.contains(k));
                        } else {
                            assert(v@[n + (p - n)] == Bitboard(old_v[p - n].0 | b));
                            assert(v@[q] == old_v[q]);
                            lemma_add_bit(old_v[p - n].0, i);
                            assert(v@[p]@.contains(k));
                        }
                    }
                }
            } else {
                proof {
                    assert(bits_below(m, i + 1) =~= bits_below(m, i as int));
                }
            }
            i += 1;
        }
        proof {
            assert(bits_below(m, 64) =~= self@);
            Bitboard::lemma_enumeration_len(self, v@);
        }
        v
    }
}

/// The bitboards whose squares all lie among the set bits of `m` below `i`.
pub open spec fn subsets_below(m: u64, i: int) -> Set<Bitboard> {
    Set::new(|b: Bitboard| b@.subset_of(bits_below(m, i)))
}

/// The subsets of the bitboard `m`.
pub open spec fn subset_boards(m: Bitboard) -> Set<Bitboard> {
    Set::new(|b: Bitboard| b@.subset_of(m@))
}

proof fn lemma_or_injective(x: u64, y: u64, k: u64)
    by (bit_vector)
    requires
        k < 64,
        (x >> k) & 1u64 != 1u64,
        (y >> k) & 1u64 != 1u64,
        x | (1u64 << k) == y | (1u64 << k),
    ensures
        x == y,
{
}

proof fn lemma_pow2_step(e: nat)
    ensures
        vstd::arithmetic::power2::pow2(e + 1) == 2 * vstd::arithmetic::power2::pow2(e),
{
    vstd::arithmetic::power2::lemma_pow2_unfold(e + 1);
}

proof fn lemma_bits_below_finite(m: u64, i: int)
    ensures
        bits_below(m, i).finite(),
        bits_below(m, i).subset_of(bits_of(m)),
{
    lemma_bits_finite(m);
    assert(bits_below(m, i).subset_of(bits_of(m)));
    vstd::set_lib::lemma_len_subset(bits_below(m, i), bits_of(m));
}

proof fn lemma_add_bit(t: u64, k: u64)
    requires
        k < 64,
    ensures
        bits_of(t | (1u64 << k)) == bits_of(t).insert(k as int),
        bits_of(t & !(1u64 << k)) == bits_of(t).remove(k as int),
{
    assert forall|i: int| bits_of(t | (1u64 << k)).contains(i) <==> bits_of(t).insert(k as int).contains(i) by {
        if 0 <= i < 64 {
            lemma_or(t, 1u64 << k, i as u64);
            lemma_single(k, i as u64);
        }
    }
    assert(bits_of(t | (1u64 << k)) =~= bits_of(t).insert(k as int));
    assert forall|i: int| bits_of(t & !(1u64 << k)).contains(i) <==> bits_of(t).remove(k as int).contains(i) by {
        if 0 <= i < 64 {
            lemma_and(t, !(1u64 << k), i as u64);
            lemma_not(1u64 << k, i as u64);
            lemma_single(k, i as u64);
        }
    }
    assert(bits_of(t & !(1u64 << k)) =~= bits_of(t).remove(k as int));
}

/// The number of subsets of the set bits of `m` below `i` is two to the power
/// of the number of those bits.
proof fn lemma_subsets_below_len(m: u64, i: int)
    requires
        0 <= i <= 64,
    ensures
        subsets_below(m, i).finite(),
        bits_below(m, i).finite(),
        subsets_below(m, i).len() == vstd::arithmetic::power2::pow2(bits_below(m, i).len()),
    decreases i,
{
    lemma_bits_below_finite(m, i);
    if i == 0 {
        assert(bits_below(m, 0) =~= Set::<int>::empty());
        assert forall|b: Bitboard| #[trigger] subsets_below(m, 0).contains(b) implies b == Bitboard(0) by {
            assert(b@ =~= Set::<int>::empty());
            assert forall|j: int| !bits_of(0u64).contains(j) by {
                lemma_zero(j as u64);
            }
            assert(bits_of(0u64) =~= Set::<int>::empty());
            lemma_bits_ext(b.0, 0u64);
        }
        assert forall|j: int| !bits_of(0u64).contains(j) by {
            lemma_zero(j as u64);
        }
        assert(subsets_below(m, 0) =~= set![Bitboard(0)]);
        assert(vstd::arithmetic::power2::pow2(0) == 1) by {
            reveal(vstd::arithmetic::power::pow);
        }
    } else {
        let k = i - 1;
        lemma_subsets_below_len(m, k);
        let a = subsets_below(m, k);
        if bit(m, k) {
            let ku = k as u64;
            let f = |b: Bitboard| Bitboard(b.0 | (1u64 << ku));
            let bb = a.map(f);
            assert(bits_below(m, i) =~= bits_below(m, k).insert(k));
            assert(!bits_below(m, k).contains(k));
            assert forall|x: Bitboard, y: Bitboard| a.contains(x) && a.contains(y) && #[trigger] f(x) == #[trigger] f(y) implies x == y by {
                assert(!x@.contains(k) && !y@.contains(k));
                lemma_or_injective(x.0, y.0, ku);
            }
            assert(vstd::relations::injective_on(f, a));
            vstd::set_lib::lemma_map_size(a, bb, f);
            assert forall|b: Bitboard| #[trigger] subsets_below(m, i).contains(b) implies a.contains(b) || bb.contains(b) by {
                if b@.contains(k) {
                    let c = Bitboard(b.0 & !(1u64 << ku));
                    lemma_add_bit(b.0, ku);
                    lemma_add_bit(c.0, ku);
                    assert(c@ == b@.remove(k));
                    assert(a.contains(c));
                    assert(f(c)@ =~= b@);
                    lemma_bits_ext(f(c).0, b.0);
                    assert(f(c) == b);
                }
            }
            assert forall|b: Bitboard| a.contains(b) || bb.contains(b) implies #[trigger] subsets_below(m, i).contains(b) by {
                if bb.contains(b) {
                    let c = choose|c: Bitboard| a.contains(c) && b == f(c);
                    lemma_add_bit(c.0, ku);
                }
            }
            assert(subsets_below(m, i) =~= a + bb);
            assert(a.disjoint(bb)) by {
                assert forall|b: Bitboard| a.contains(b) implies !bb.contains(b) by {
                    if bb.contains(b) {
                        let c = choose|c: Bitboard| a.contains(c) && b == f(c);
                        lemma_add_bit(c.0, ku);
                    }
                }
            }
            vstd::set_lib::lemma_set_disjoint_lens(a, bb);
            lemma_pow2_step(bits_below(m, k).len());
        } else {
            assert(bits_below(m, i) =~= bits_below(m, k));
            assert(subsets_below(m, i) =~= a);
        }
    }
}

/// A bitboard has two to the power of its number of squares subsets.
pub proof fn lemma_subset_count(m: Bitboard)
    ensures
        subset_boards(m).finite(),
        subset_boards(m).len() == vstd::arithmetic::power2::pow2(m@.len()),
{
    lemma_subsets_below_len(m.0, 64);
    assert(bits_below(m.0, 64) =~= m@);
    assert(subsets_below(m.0, 64) =~= subset_boards(m));
}

/// Flipping a square twice gives it back: `63 - (63 - i) == i`.
pub proof fn lemma_square_flip_involution(s: Square)
    requires
        s.valid(),
    ensures
        Square(flip_index(s.idx()) as u32).valid(),
        flip_index(flip_index(s.idx())) == s.idx(),
{
}

/// Flipping a set of squares twice gives it back.
pub proof fn lemma_flip_set_involution(v: Set<int>)
    requires
        v.subset_of(all_squares()),
    ensures
        flip_set(flip_set(v)) == v,
{
    assert(flip_set(flip_set(v)) =~= v);
}

/// One character per square: `x` for the squares of `v`, `.` for the others.
pub open spec fn occupancy_cells(v: Set<int>) -> Seq<char> {
    Seq::new(64, |i: int| if v.contains(i) { 'x' } else { '.' })
}

impl Bitboard {
    /// Renders the bitboard as an 8 by 8 grid, `x` for its squares and `.`
    /// for the others, the eighth rank first.
    pub fn render(self) -> (r: String)
        ensures
            r@ == crate::text::grid_text(occupancy_cells(self@)),
    {
        let mut cells: Vec<char> = Vec::new();
        let mut i: u32 = 0;
        while i < 64
            invariant
                i <= 64,
                cells@.len() == i,
                forall|j: int| 0 <= j < i ==> cells@[j] == occupancy_cells(self@)[j],
            decreases 64 - i,
        {
            if self.contains(Square(i)) {
                cells.push('x');
            } else {
                cells.push('.');
            }
            i += 1;
        }
        proof {
            assert(cells@ =~= occupancy_cells(self@));
        }
        crate::text::render_grid(&cells)
    }
}

impl Square {
    /// The notation of the square: its file letter, then its rank digit.
    pub open spec fn notation_spec(self) -> Seq<char> {
        seq![File::of_index(self.idx() % 8).to_char_spec(), Rank::of_index(self.idx() / 8).to_char_spec()]
    }

    /// Returns the notation of the square, such as `c6`.
    pub fn notation(self) -> (r: String)
        requires
            self.valid(),
        ensures
            r@ == self.notation_spec(),
    {
        let mut out = String::new();
        crate::text::push_char(&mut out, char::from(self.file()));
        crate::text::push_char(&mut out, char::from(self.rank()));
        proof {
            assert(out@ =~= self.notation_spec());
        }
        out
    }
}

} // verus!
