use patroclus::bits::{Bitboard, Coords, File, Flippable, Rank, Square};

#[test]
fn u32_to_rank() {
    let r = 5.try_into();
    assert_eq!(r, Ok(Rank::Sixth));
    let r = Rank::try_from(69);
    assert_eq!(r, Err(69));
}

#[test]
fn rank_to_u32() {
    let i = Rank::Sixth as u32;
    assert_eq!(i, 5);
}

#[test]
fn char_to_rank() {
    let r = '3'.try_into();
    assert_eq!(r, Ok(Rank::Third));
    let r = Rank::try_from('a');
    assert_eq!(r, Err('a'));
}

#[test]
fn rank_to_char() {
    let c = char::from(Rank::First);
    assert_eq!(c, '1');
}

#[test]
fn rank_iter() {
    let v1 = Rank::iter().collect::<Vec<Rank>>();
    let v2 = vec![
        Rank::First,
        Rank::Second,
        Rank::Third,
        Rank::Fourth,
        Rank::Fifth,
        Rank::Sixth,
        Rank::Seventh,
        Rank::Eighth,
    ];
    assert_eq!(v1, v2);
}

#[test]
fn u32_to_file() {
    let f = 5.try_into();
    assert_eq!(f, Ok(File::F));
    let f = File::try_from(69);
    assert_eq!(f, Err(69));
}

#[test]
fn file_to_u32() {
    let i = File::H as u32;
    assert_eq!(i, 7);
}

#[test]
fn char_to_file() {
    let f = 'a'.try_into();
    assert_eq!(f, Ok(File::A));
    let f = File::try_from('9');
    assert_eq!(f, Err('9'));
}

#[test]
fn file_to_char() {
    let c = char::from(File::E);
    assert_eq!(c, 'e');
}

#[test]
fn file_iter() {
    let v1 = File::iter().collect::<Vec<File>>();
    let v2 = vec![File::A, File::B, File::C, File::D, File::E, File::F, File::G, File::H];
    assert_eq!(v1, v2);
}

#[test]
fn new() {
    let s1 = Square::new(42);
    assert_eq!(s1.0, 42);
}

#[test]
fn rank() {
    let s1 = Square::new(42);
    assert_eq!(s1.rank(), Rank::Sixth);
}

#[test]
fn file() {
    let s1 = Square::new(42);
    assert_eq!(s1.file(), File::C);
}

#[test]
fn iter() {
    let iter1 = Square::iter();
    for (i, s) in iter1.enumerate() {
        assert_eq!(s.0, i as u32);
    }
}

#[test]
fn flip() {
    assert_eq!(Square::new(42).flipped(), Square::new(21));
}

#[test]
fn subsets() {
    let b = Bitboard::new(123);
    for sub_b in b.subsets() {
        assert!(sub_b.is_subset(b));
    }
    let mut subsets = b.subsets();
    let mut subsets_slow = b.subsets_slow();
    subsets.sort();
    subsets_slow.sort();
    assert_eq!(subsets, subsets_slow)
}

#[test]
fn square_flip_round_trip() {
    for i in 0..64u32 {
        let s = Square::new(i);
        assert_eq!(s.flipped().flipped(), s);
        assert_eq!(s.flipped().0, 63 - i);
    }
}

#[test]
fn square_from_coords_and_index() {
    let s = Square::from(Coords(File::C, Rank::Sixth));
    assert_eq!(s, Square::new(42));
    assert_eq!(usize::from(s), 42);
    assert_eq!(s.index(), 42);
}

#[test]
fn bitboard_count_matches_squares() {
    let b = Bitboard::new(0x8100_0000_0000_0181);
    assert_eq!(b.count(), 5);
    let squares = b.squares();
    assert_eq!(squares.len(), 5);
    let idx: Vec<u32> = squares.iter().map(|s| s.0).collect();
    assert_eq!(idx, vec![63, 56, 8, 7, 0]);
    assert_eq!(Bitboard::empty().count(), 0);
    assert_eq!(Bitboard::full().count(), 64);
}

#[test]
fn bitboard_extremes() {
    let b = Bitboard::new(0x0000_0100_0010_0000);
    assert_eq!(b.largest_square(), Some(Square::new(40)));
    assert_eq!(b.smallest_square(), Some(Square::new(20)));
    assert_eq!(Bitboard::empty().largest_square(), None);
    assert_eq!(Bitboard::empty().smallest_square(), None);
    assert_eq!(Bitboard::full().largest_square(), Some(Square::new(63)));
    assert_eq!(Bitboard::full().smallest_square(), Some(Square::new(0)));
}

#[test]
fn bitboard_insert_remove() {
    let mut b = Bitboard::empty();
    assert!(b.insert(Square::new(10)));
    assert!(!b.insert(Square::new(10)));
    assert!(b.contains(Square::new(10)));
    assert!(b.is_singular());
    assert!(b.remove(Square::new(10)));
    assert!(!b.remove(Square::new(10)));
    assert!(b.is_empty());
    assert!(!b.is_any());
}

#[test]
fn bitboard_pop_largest_drains() {
    let mut b = Bitboard::new(0b1011);
    assert_eq!(b.pop_largest(), Some(Square::new(3)));
    assert_eq!(b.pop_largest(), Some(Square::new(1)));
    assert_eq!(b.pop_largest(), Some(Square::new(0)));
    assert_eq!(b.pop_largest(), None);
    assert_eq!(b, Bitboard::empty());
}

#[test]
fn bitboard_rank_and_file_masks() {
    assert_eq!(Bitboard::rank(Rank::First), Bitboard::new(0xFF));
    assert_eq!(Bitboard::rank(Rank::Eighth), Bitboard::new(0xFF00_0000_0000_0000));
    assert_eq!(Bitboard::file(File::A), Bitboard::new(0x0101_0101_0101_0101));
    assert_eq!(Bitboard::file(File::H), Bitboard::new(0x8080_8080_8080_8080));
    assert_eq!(Bitboard::square(Square::new(9)), Bitboard::new(1 << 9));
    assert_eq!(Bitboard::coords(Coords(File::B, Rank::Second)), Bitboard::new(1 << 9));
}

#[test]
fn bitboard_set_algebra() {
    let a = Bitboard::new(0b1100);
    let b = Bitboard::new(0b1010);
    assert_eq!(a | b, Bitboard::new(0b1110));
    assert_eq!(a & b, Bitboard::new(0b1000));
    assert_eq!(a ^ b, Bitboard::new(0b0110));
    assert_eq!(!a, Bitboard::new(!0b1100));
    assert_eq!(a.union(b), a | b);
    assert_eq!(a.intersection(b), a & b);
    assert_eq!(a.symmetric_difference(b), a ^ b);
    assert_eq!(a.complement(), !a);
    let mut c = a;
    c |= b;
    assert_eq!(c, Bitboard::new(0b1110));
    c &= b;
    assert_eq!(c, b);
    c ^= b;
    assert_eq!(c, Bitboard::empty());
}

#[test]
fn bitboard_flip_reverses_bits() {
    let b = Bitboard::new(0x0000_0000_0000_00F1);
    assert_eq!(b.flipped(), Bitboard::new(0x8F00_0000_0000_0000));
    assert_eq!(b.flipped().flipped(), b);
}

#[test]
fn subsets_count_and_bounds() {
    let m = Bitboard::new(0x0000_0000_0003_4400);
    let fast = m.subsets();
    let slow = m.subsets_slow();
    assert_eq!(fast.len(), 1 << m.count());
    assert_eq!(slow.len(), 1 << m.count());
    assert!(fast.contains(&Bitboard::empty()));
    assert!(fast.contains(&m));
    for s in fast.iter() {
        assert_eq!(*s & m, *s);
    }
    for w in fast.windows(2) {
        assert!(w[0].0 < w[1].0);
    }
    let empty = Bitboard::empty();
    assert_eq!(empty.subsets(), vec![Bitboard::empty()]);
    assert_eq!(empty.subsets_slow(), vec![Bitboard::empty()]);
}
