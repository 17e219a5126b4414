use patroclus::bits::{Bitboard, Square};
use patroclus::position::board::Board;
use patroclus::position::castling::Castling;
use patroclus::position::{Color, Piece, Position, Role};

#[test]
fn fen_round_trip() {
    let fen_str = "r1b2r2/p2p1pk1/1pp2bp1/q5N1/7P/P4Q2/4RPP1/1NB2K1R w - - 0 20";
    let p = Position::from_fen_string(fen_str.to_string()).unwrap();
    assert_eq!(p.to_fen_string(), fen_str);
    assert_eq!(p.board().king_square(Color::White), Square::new(5));
    assert_eq!(p.board().king_square(Color::Black), Square::new(54));
    assert_eq!(p.board().get(Square::new(32)), Some(Piece(Color::Black, Role::Queen)));
}

#[test]
fn start_position_fen() {
    let start = "rnbqkbnr/pppppppp/8/8/8/8/PPPPPPPP/RNBQKBNR w KQkq - 0 1";
    let p = Position::from_fen_string(start.to_string()).unwrap();
    assert_eq!(p.board(), &Board::default());
    assert_eq!(p.castling(), Castling::default());
    assert_eq!(p.to_fen_string(), start);
    assert_eq!(
        Position::default().to_fen_string(),
        "rnbqkbnr/pppppppp/8/8/8/8/PPPPPPPP/RNBQKBNR w KQkq - 0 0"
    );
}

#[test]
fn fen_en_passant_and_turn() {
    let fen = "rnbqkbnr/pppp1ppp/8/4p3/4P3/8/PPPP1PPP/RNBQKBNR b Kq e3 0 2";
    let p = Position::from_fen_string(fen.to_string()).unwrap();
    assert_eq!(p.turn(), Color::Black);
    assert_eq!(p.en_passant(), Some(Square::new(20)));
    assert_eq!(p.castling().notation(), "Kq");
    assert_eq!(p.to_fen_string(), fen);
}

#[test]
fn fen_errors() {
    assert_eq!(
        Position::from_fen_string("4k3/8/8/8/8/8/8/4K3 w - -".to_string()),
        Err("Invalid number of fields in FEN string")
    );
    assert!(Position::from_fen_string("9/8/8/8/8/8/8/8 w - - 0 1".to_string()).is_err());
    assert!(Position::from_fen_string("4k3/8/8/8/8/8/8/4K3 x - - 0 1".to_string()).is_err());
    assert!(Position::from_fen_string("4k3/8/8/8/8/8/8/4K3 w KX - 0 1".to_string()).is_err());
    assert!(Position::from_fen_string("4k3/8/8/8/8/8/8/4K3 w - z9 0 1".to_string()).is_err());
    assert!(Position::from_fen_string("4k3/8/8/8/8/8/8/4K3 w - - -1 1".to_string()).is_err());
    assert!(Position::from_fen_string("4k3/8/8/8/8/8/8/4K3 w - - 0 4294967296".to_string()).is_err());
    assert!(Position::from_fen_string("4k3/8/8/8/8/8/8/4K3 w - - +3 4294967295".to_string()).is_ok());
    assert_eq!(
        Position::from_fen_string("8/8/8/8/8/8/8/8 w - - 0 1".to_string()),
        Err("FEN placement needs exactly one king of each color")
    );
    assert!(Position::from_fen_string("4k3/8/8/8/8/8/8/3KK3 w - - 0 1".to_string()).is_err());
}

#[test]
fn fen_keeps_piece_on_default_king_square() {
    let fen = "4k3/8/8/8/8/8/8/4R1K1 w - - 0 1";
    let p = Position::from_fen_string(fen.to_string()).unwrap();
    assert_eq!(p.board().get(Square::new(4)), Some(Piece(Color::White, Role::Rook)));
    assert_eq!(p.board().king_square(Color::White), Square::new(6));
    assert_eq!(p.to_fen_string(), fen);
}

#[test]
fn new_position_fen() {
    assert_eq!(Position::new().to_fen_string(), "4k3/8/8/8/8/8/8/4K3 w - - 1 1");
}

#[test]
fn renderings() {
    let b = Board::default();
    let text = b.render();
    let first_line = text.lines().next().unwrap();
    assert_eq!(first_line, "r n b q k b n r ");
    assert_eq!(text.lines().count(), 8);
    let bb = Bitboard::new(1);
    assert_eq!(bb.render().lines().last().unwrap(), "x . . . . . . . ");
    assert_eq!(Square::new(42).notation(), "c6");
    assert_eq!(Castling::new().notation(), "-");
    assert_eq!(Castling::default().notation(), "KQkq");
}
