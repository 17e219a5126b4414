use patroclus::bits::{Bitboard, Square};
use patroclus::movegen::magic::{dump_magics, find_magic, magic_index, try_make_table, MagicEntry, SliderTable};
use patroclus::movegen::{find_mask, generate_bishop_moves, generate_rook_moves};
use patroclus::position::Role;

#[test]
fn rook_corner_empty_board() {
    let a = generate_rook_moves(Square::new(0), Bitboard::empty());
    assert_eq!(a.count(), 14);
    assert_eq!(a, Bitboard::new(0x0101_0101_0101_01FE));
}

#[test]
fn rook_with_blockers() {
    let blockers = Bitboard::new((1 << 24) | (1 << 3) | (1 << 50));
    let a = generate_rook_moves(Square::new(0), blockers);
    assert_eq!(a, Bitboard::new((1 << 8) | (1 << 16) | (1 << 24) | (1 << 1) | (1 << 2) | (1 << 3)));
}

#[test]
fn bishop_center() {
    let a = generate_bishop_moves(Square::new(27), Bitboard::empty());
    assert_eq!(a.count(), 13);
    let blockers = Bitboard::new(1 << 36);
    let b = generate_bishop_moves(Square::new(27), blockers);
    assert!(b.contains(Square::new(36)));
    assert!(!b.contains(Square::new(45)));
    assert_eq!(b.count(), 10);
}

#[test]
fn relevance_masks() {
    assert_eq!(find_mask(Role::Rook, Square::new(0)), Bitboard::new(0x0001_0101_0101_017E));
    assert_eq!(find_mask(Role::Rook, Square::new(0)).count(), 12);
    assert_eq!(find_mask(Role::Bishop, Square::new(0)).count(), 6);
    assert_eq!(find_mask(Role::Bishop, Square::new(27)).count(), 9);
    assert_eq!(find_mask(Role::Rook, Square::new(27)).count(), 10);
}

#[test]
fn magic_table_is_correct() {
    let s = Square::new(27);
    let mask = find_mask(Role::Bishop, s);
    let bits = mask.count() as u8;
    let (entry, table) = find_magic(Role::Bishop, s, bits, 1_000_000).expect("a magic");
    assert_eq!(entry.mask, mask);
    assert_eq!(table.len(), 1 << bits);
    for blockers in mask.subsets() {
        let i = magic_index(&entry, blockers);
        assert_eq!(table[i], generate_bishop_moves(s, blockers));
    }
}

#[test]
fn colliding_magic_is_rejected() {
    let s = Square::new(0);
    let mask = find_mask(Role::Rook, s);
    let entry = MagicEntry { mask, magic: 0, index_bits: 4 };
    assert!(try_make_table(Role::Rook, s, &entry).is_err());
    let entry = MagicEntry { mask, magic: 1, index_bits: 31 };
    assert_eq!(magic_index(&entry, Bitboard::full()), (mask.0 >> 33) as usize);
}

#[test]
fn slider_table_lookup_ignores_outside_squares() {
    let s = Square::new(0);
    let t = SliderTable::find(Role::Rook, s, 12, 10_000_000).expect("a magic");
    let occupancy = Bitboard::new((1 << 16) | (1 << 5) | (1 << 56) | (1 << 7) | (1 << 40));
    assert_eq!(t.attacks(occupancy), generate_rook_moves(s, occupancy));
    assert_eq!(t.attacks(Bitboard::full()), Bitboard::new((1 << 1) | (1 << 8)));
    assert_eq!(t.attacks(Bitboard::empty()).count(), 14);
}

#[test]
fn bishop_magics_for_every_square() {
    let tables = dump_magics(Role::Bishop, 10_000_000).expect("magics");
    assert_eq!(tables.len(), 64);
    for (i, t) in tables.iter().enumerate() {
        assert_eq!(t.square, Square::new(i as u32));
        let occupancy = Bitboard::new(0x0042_0018_2400_8100);
        assert_eq!(t.attacks(occupancy), generate_bishop_moves(t.square, occupancy));
    }
}
