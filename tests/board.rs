use patroclus::bits::{Bitboard, Flippable, Square};
use patroclus::position::board::{is_legal_placement, Board};
use patroclus::position::castling::{Castling, CastlingRights, CastlingSide};
use patroclus::position::mailbox::Mailbox;
use patroclus::position::{Color, Piece, Position, Role};

const ROLES: [Role; 5] = [Role::Pawn, Role::Knight, Role::Bishop, Role::Rook, Role::Queen];

#[test]
fn default_board_counts() {
    let b = Board::default();
    let expected = [8, 2, 2, 2, 1];
    for c in [Color::White, Color::Black] {
        for (r, n) in ROLES.iter().zip(expected.iter()) {
            assert_eq!(b.piece(Piece(c, *r)).count(), *n);
        }
        assert_eq!(b.color(c).count(), 16);
    }
    assert_eq!(b.king_square(Color::White), Square::new(4));
    assert_eq!(b.king_square(Color::Black), Square::new(60));
    assert_eq!(b.all(), Bitboard::new(0xFFFF_0000_0000_FFFF));
    assert_eq!(b.none(), Bitboard::new(0x0000_FFFF_FFFF_0000));
    assert_eq!(b.get(Square::new(3)), Some(Piece(Color::White, Role::Queen)));
    assert_eq!(b.get(Square::new(60)), Some(Piece(Color::Black, Role::King)));
    assert_eq!(b.get(Square::new(30)), None);
}

#[test]
fn new_board_has_two_kings() {
    let b = Board::new();
    assert_eq!(b.all(), Bitboard::new((1 << 4) | (1 << 60)));
    assert_eq!(b.king_bitboard(Color::White), Bitboard::new(1 << 4));
    assert_eq!(b.role(Role::Pawn), Bitboard::empty());
}

#[test]
fn from_placement_of_start_is_default() {
    let placement = Mailbox::default().0;
    assert_eq!(Board::from_placement(placement), Board::default());
    let mut kings = [None; 64];
    kings[4] = Some(Piece(Color::White, Role::King));
    kings[60] = Some(Piece(Color::Black, Role::King));
    assert_eq!(Board::from_placement(kings), Board::new());
}

#[test]
fn from_placement_keeps_every_piece() {
    let mut pm = [None; 64];
    pm[4] = Some(Piece(Color::White, Role::Rook));
    pm[6] = Some(Piece(Color::White, Role::King));
    pm[60] = Some(Piece(Color::Black, Role::King));
    let b = Board::from_placement(pm);
    for i in 0..64u32 {
        assert_eq!(b.get(Square::new(i)), pm[i as usize]);
    }
    assert_eq!(b.king_square(Color::White), Square::new(6));
    assert!(b.debug_verify());
}

#[test]
fn placement_legality() {
    let mut pm = [None; 64];
    assert!(!is_legal_placement(&pm));
    pm[4] = Some(Piece(Color::White, Role::King));
    pm[60] = Some(Piece(Color::Black, Role::King));
    assert!(is_legal_placement(&pm));
    pm[12] = Some(Piece(Color::White, Role::King));
    assert!(!is_legal_placement(&pm));
}

#[test]
fn place_then_get() {
    let mut b = Board::new();
    let p = Piece(Color::White, Role::Knight);
    assert!(b.place(Square::new(20), p));
    assert_eq!(b.get(Square::new(20)), Some(p));
    assert!(!b.place(Square::new(20), Piece(Color::Black, Role::Rook)));
    assert_eq!(b.get(Square::new(20)), Some(p));
    assert!(b.place(Square::new(30), Piece(Color::White, Role::King)));
    assert_eq!(b.king_square(Color::White), Square::new(30));
    assert_eq!(b.get(Square::new(4)), None);
    assert_eq!(b.color(Color::White).count(), 2);
}

#[test]
fn move_then_get() {
    let mut b = Board::default();
    let captured = b.move_piece(Square::new(12), Square::new(28));
    assert_eq!(captured, None);
    assert_eq!(b.get(Square::new(12)), None);
    assert_eq!(b.get(Square::new(28)), Some(Piece(Color::White, Role::Pawn)));
    let captured = b.move_piece(Square::new(28), Square::new(52));
    assert_eq!(captured, Some(Piece(Color::Black, Role::Pawn)));
    assert_eq!(b.color(Color::Black).count(), 15);
    assert_eq!(b.role(Role::Pawn).count(), 15);
}

#[test]
fn replace_and_king_move() {
    let mut b = Board::default();
    assert_eq!(b.replace(Square::new(8), Piece(Color::Black, Role::Queen)), Some(Piece(Color::White, Role::Pawn)));
    assert_eq!(b.get(Square::new(8)), Some(Piece(Color::Black, Role::Queen)));
    assert_eq!(b.color(Color::White).count(), 15);
    assert_eq!(b.piece(Piece(Color::Black, Role::Queen)).count(), 2);
    let captured = b.king_move(Color::White, Square::new(8));
    assert_eq!(captured, Some(Piece(Color::Black, Role::Queen)));
    assert_eq!(b.king_square(Color::White), Square::new(8));
    assert_eq!(b.get(Square::new(4)), None);
    assert_eq!(b.color(Color::Black).count(), 16);
}

#[test]
fn flip_twice_is_identity() {
    let mut b = Board::default();
    b.move_piece(Square::new(6), Square::new(21));
    let f = b.flipped();
    assert_eq!(f.get(Square::new(63 - 21)), Some(Piece(Color::White, Role::Knight)));
    assert_eq!(f.king_square(Color::White), Square::new(59));
    for c in [Color::White, Color::Black] {
        assert_eq!(f.color(c).count(), b.color(c).count());
    }
    for r in ROLES {
        assert_eq!(f.role(r).count(), b.role(r).count());
    }
    assert_eq!(f.flipped(), b);
}

#[test]
fn test_debug_verify() {
    let _ = env_logger::builder().is_test(true).try_init();

    let b = Board::new();
    assert!(b.debug_verify());
}

#[test]
fn debug_verify_after_moves() {
    let mut b = Board::default();
    assert!(b.debug_verify());
    b.move_piece(Square::new(12), Square::new(28));
    b.king_move(Color::Black, Square::new(44));
    assert!(b.debug_verify());
    assert!(b.flipped().debug_verify());
    for i in 0..64 {
        assert_eq!(b.get_bitboard(Square::new(i)), b.get(Square::new(i)));
    }
}

#[test]
fn castling_rights() {
    let mut c = Castling::default();
    assert!(c.get(Color::White).can_castle(CastlingSide::Kingside));
    c.remove(Color::White, CastlingSide::Kingside);
    assert!(!c.get(Color::White).can_castle(CastlingSide::Kingside));
    assert!(c.get(Color::White).can_castle(CastlingSide::Queenside));
    c.set(Color::Black, CastlingRights::new(false, true));
    assert_eq!(c.get(Color::Black), CastlingRights::new(false, true));
    c.clear();
    assert_eq!(c, Castling::new());
}

#[test]
fn piece_letters() {
    assert_eq!(char::from(Piece(Color::White, Role::Knight)), 'N');
    assert_eq!(char::from(Piece(Color::Black, Role::Queen)), 'q');
    assert_eq!(Piece::try_from('k'), Ok(Piece(Color::Black, Role::King)));
    assert_eq!(Piece::try_from('x'), Err('x'));
    assert_eq!(Color::try_from('b'), Ok(Color::Black));
    assert_eq!(char::from(Color::White), 'w');
}

#[test]
fn position_flip() {
    let p = Position::default();
    let f = p.flipped();
    assert_eq!(f.turn(), Color::White);
    assert_eq!(f.board().get(Square::new(4)), Some(Piece(Color::Black, Role::Queen)));
    assert_eq!(Position::new().board(), &Board::new());
}
