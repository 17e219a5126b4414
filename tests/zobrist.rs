use patroclus::bits::Square;
use patroclus::position::board::Board;
use patroclus::position::zobrist::{BuildZobristHasher, ZobristHasher, ZobristKeys};
use patroclus::position::{Color, Piece, Position, Role};
use std::hash::{BuildHasher, Hasher};

#[test]
fn hash_is_deterministic() {
    let keys = ZobristKeys::from_seed(7);
    let b = Board::default();
    assert_eq!(keys.hash_board(&b), keys.hash_board(&Board::default()));
    let again = ZobristKeys::from_seed(7);
    assert_eq!(keys.hash_board(&b), again.hash_board(&b));
}

#[test]
fn move_changes_hash_and_back_restores() {
    let keys = ZobristKeys::from_seed(12345);
    let mut b = Board::default();
    let h0 = keys.hash_board(&b);
    b.move_piece(Square::new(1), Square::new(18));
    let h1 = keys.hash_board(&b);
    assert_ne!(h0, h1);
    let p = Piece(Color::White, Role::Knight);
    let incremental = keys.toggle(keys.toggle(h0, Square::new(1), p), Square::new(18), p);
    assert_eq!(incremental, h1);
    b.move_piece(Square::new(18), Square::new(1));
    assert_eq!(keys.hash_board(&b), h0);
}

#[test]
fn position_hash_includes_turn_and_castling() {
    let keys = ZobristKeys::from_seed(99);
    let start = Position::default();
    let empty = Position::new();
    assert_ne!(keys.hash_position(&start), keys.hash_board(start.board()));
    assert_eq!(keys.hash_position(&empty), keys.hash_board(empty.board()));
}

#[test]
fn hasher_xors_words() {
    let mut h = BuildZobristHasher::new().build_hasher();
    h.write_u64(0x1234);
    h.write_u64(0x1234);
    assert_eq!(h.finish(), 0);
    let mut h = ZobristHasher::new();
    h.write_u64(0xFF00);
    h.write_u64(0x00FF);
    assert_eq!(h.finish(), 0xFFFF);
}

#[test]
fn incremental_update_matches_full_hash() {
    let keys = ZobristKeys::from_seed(2024);
    let mut b = Board::default();
    b.move_piece(Square::new(12), Square::new(28));
    b.move_piece(Square::new(51), Square::new(35));
    let before = keys.hash_board(&b);
    let mover = Piece(Color::White, Role::Pawn);
    let captured = b.move_piece(Square::new(28), Square::new(35));
    assert_eq!(captured, Some(Piece(Color::Black, Role::Pawn)));
    let updated = keys.update_for_move(before, Square::new(28), Square::new(35), mover, captured);
    assert_eq!(updated, keys.hash_board(&b));
    assert_ne!(updated, before);
}

#[test]
fn keys_differ_between_seeds() {
    let a = ZobristKeys::from_seed(1);
    let b = ZobristKeys::from_seed(2);
    let p = Piece(Color::Black, Role::Rook);
    assert_ne!(a.piece_key(Square::new(0), p), b.piece_key(Square::new(0), p));
    assert_eq!(a.piece_key(Square::new(0), p) & 0x3FF, 9);
}
