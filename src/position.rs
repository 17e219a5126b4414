//! Keeping track of chessboard state.

pub mod board;
pub mod castling;
pub mod mailbox;
pub mod zobrist;

use vstd::prelude::*;
use vstd::string::StringExecFns;
use crate::bits::{Coords, File, Flippable, Rank, Square, flip_index};
use crate::text::{
    chars_of, decimal, digit, digit_char, digit_of, digit_value, number_value, parse_number,
    push_char, push_decimal, split_spaces, split_spaces_exec,
};
use self::board::Board;
use self::castling::{Castling, CastlingRights};
use self::board::legal_placement;
use self::mailbox::{kings_only, reversed, start_placement};

verus! {

/// The color of a piece, a turn, and so on.
#[derive(PartialEq, Eq, Debug, Copy, Clone, Hash, Structural)]
pub enum Color {
    White,
    Black,
}

impl Color {
    /// The position of the color: 0 for white, 1 for black.
    pub open spec fn idx(self) -> int {
        match self {
            Color::White => 0,
            Color::Black => 1,
        }
    }

    /// Returns the position of the color: 0 for white, 1 for black.
    pub fn index(self) -> (r: usize)
        ensures
            r == self.idx(),
    {
        match self {
            Color::White => 0,
            Color::Black => 1,
        }
    }

    /// The opposite color.
    pub open spec fn other(self) -> Color {
        match self {
            Color::White => Color::Black,
            Color::Black => Color::White,
        }
    }

    /// The notation character of the color.
    pub open spec fn to_char_spec(self) -> char {
        match self {
            Color::White => 'w',
            Color::Black => 'b',
        }
    }
}

impl From<Color> for char {
    /// The notation character of the color, `'w'` or `'b'`.
    fn from(c: Color) -> (r: char) {
        match c {
            Color::White => 'w',
            Color::Black => 'b',
        }
    }
}

impl vstd::std_specs::convert::FromSpecImpl<Color> for char {
    open spec fn obeys_from_spec() -> bool {
        true
    }

    open spec fn from_spec(c: Color) -> char {
        c.to_char_spec()
    }
}

impl TryFrom<char> for Color {
    type Error = char;

    /// The color written as `c`, or `c` itself when it names no color.
    fn try_from(c: char) -> (r: Result<Color, char>) {
        if c == 'w' {
            Ok(Color::White)
        } else if c == 'b' {
            Ok(Color::Black)
        } else {
            Err(c)
        }
    }
}

impl vstd::std_specs::convert::TryFromSpecImpl<char> for Color {
    open spec fn obeys_try_from_spec() -> bool {
        true
    }

    open spec fn try_from_spec(c: char) -> Result<Color, char> {
        if c == 'w' {
            Ok(Color::White)
        } else if c == 'b' {
            Ok(Color::Black)
        } else {
            Err(c)
        }
    }
}

/// The type of a chess piece.
#[derive(PartialEq, Eq, Debug, Copy, Clone, Hash, Structural)]
pub enum Role {
    Pawn,
    Knight,
    Bishop,
    Rook,
    Queen,
    King,
}

impl Role {
    /// The position of the role, from 0 (pawn) to 5 (king).
    pub open spec fn idx(self) -> int {
        match self {
            Role::Pawn => 0,
            Role::Knight => 1,
            Role::Bishop => 2,
            Role::Rook => 3,
            Role::Queen => 4,
            Role::King => 5,
        }
    }

    /// The role at position `i`, for `i < 6`.
    pub open spec fn of_index(i: int) -> Role {
        if i == 0 {
            Role::Pawn
        } else if i == 1 {
            Role::Knight
        } else if i == 2 {
            Role::Bishop
        } else if i == 3 {
            Role::Rook
        } else if i == 4 {
            Role::Queen
        } else {
            Role::King
        }
    }

    /// Returns the position of the role, from 0 (pawn) to 5 (king).
    pub fn index(self) -> (r: usize)
        ensures
            r == self.idx(),
    {
        match self {
            Role::Pawn => 0,
            Role::Knight => 1,
            Role::Bishop => 2,
            Role::Rook => 3,
            Role::Queen => 4,
            Role::King => 5,
        }
    }

    /// Returns the role at position `i`, for `i < 6`.
    pub fn from_index(i: usize) -> (r: Role)
        requires
            i < 6,
        ensures
            r == Role::of_index(i as int),
            r.idx() == i,
    {
        if i == 0 {
            Role::Pawn
        } else if i == 1 {
            Role::Knight
        } else if i == 2 {
            Role::Bishop
        } else if i == 3 {
            Role::Rook
        } else if i == 4 {
            Role::Queen
        } else {
            Role::King
        }
    }
}

/// A piece on a chessboard: its color and its role.
#[derive(PartialEq, Eq, Debug, Copy, Clone, Hash, Structural)]
pub struct Piece(pub Color, pub Role);

impl Piece {
    /// The notation letter of the piece: upper case for white, lower case for black.
    pub open spec fn to_char_spec(self) -> char {
        let upper = match self.1 {
            Role::Pawn => 'P',
            Role::Knight => 'N',
            Role::Bishop => 'B',
            Role::Rook => 'R',
            Role::Queen => 'Q',
            Role::King => 'K',
        };
        let lower = match self.1 {
            Role::Pawn => 'p',
            Role::Knight => 'n',
            Role::Bishop => 'b',
            Role::Rook => 'r',
            Role::Queen => 'q',
            Role::King => 'k',
        };
        match self.0 {
            Color::White => upper,
            Color::Black => lower,
        }
    }

    /// The piece that the notation letter `c` names, if any.
    pub open spec fn of_char(c: char) -> Option<Piece> {
        if c == 'P' {
            Some(Piece(Color::White, Role::Pawn))
        } else if c == 'N' {
            Some(Piece(Color::White, Role::Knight))
        } else if c == 'B' {
            Some(Piece(Color::White, Role::Bishop))
        } else if c == 'R' {
            Some(Piece(Color::White, Role::Rook))
        } else if c == 'Q' {
            Some(Piece(Color::White, Role::Queen))
        } else if c == 'K' {
            Some(Piece(Color::White, Role::King))
        } else if c == 'p' {
            Some(Piece(Color::Black, Role::Pawn))
        } else if c == 'n' {
            Some(Piece(Color::Black, Role::Knight))
        } else if c == 'b' {
            Some(Piece(Color::Black, Role::Bishop))
        } else if c == 'r' {
            Some(Piece(Color::Black, Role::Rook))
        } else if c == 'q' {
            Some(Piece(Color::Black, Role::Queen))
        } else if c == 'k' {
            Some(Piece(Color::Black, Role::King))
        } else {
            None
        }
    }

    /// Returns the notation letter of the piece.
    pub fn to_char(self) -> (r: char)
        ensures
            r == self.to_char_spec(),
    {
        let upper = match self.1 {
            Role::Pawn => 'P',
            Role::Knight => 'N',
            Role::Bishop => 'B',
            Role::Rook => 'R',
            Role::Queen => 'Q',
            Role::King => 'K',
        };
        let lower = match self.1 {
            Role::Pawn => 'p',
            Role::Knight => 'n',
            Role::Bishop => 'b',
            Role::Rook => 'r',
            Role::Queen => 'q',
            Role::King => 'k',
        };
        match self.0 {
            Color::White => upper,
            Color::Black => lower,
        }
    }

    /// Returns the piece that the notation letter `c` names, if any.
    pub fn from_char(c: char) -> (r: Option<Piece>)
        ensures
            r == Piece::of_char(c),
    {
        if c == 'P' {
            Some(Piece(Color::White, Role::Pawn))
        } else if c == 'N' {
            Some(Piece(Color::White, Role::Knight))
        } else if c == 'B' {
            Some(Piece(Color::White, Role::Bishop))
        } else if c == 'R' {
            Some(Piece(Color::White, Role::Rook))
        } else if c == 'Q' {
            Some(Piece(Color::White, Role::Queen))
        } else if c == 'K' {
            Some(Piece(Color::White, Role::King))
        } else if c == 'p' {
            Some(Piece(Color::Black, Role::Pawn))
        } else if c == 'n' {
            Some(Piece(Color::Black, Role::Knight))
        } else if c == 'b' {
            Some(Piece(Color::Black, Role::Bishop))
        } else if c == 'r' {
            Some(Piece(Color::Black, Role::Rook))
        } else if c == 'q' {
            Some(Piece(Color::Black, Role::Queen))
        } else if c == 'k' {
            Some(Piece(Color::Black, Role::King))
        } else {
            None
        }
    }
}

impl From<Piece> for char {
    /// The notation letter of the piece.
    fn from(p: Piece) -> (r: char) {
        p.to_char()
    }
}

impl vstd::std_specs::convert::FromSpecImpl<Piece> for char {
    open spec fn obeys_from_spec() -> bool {
        true
    }

    open spec fn from_spec(p: Piece) -> char {
        p.to_char_spec()
    }
}

impl TryFrom<char> for Piece {
    type Error = char;

    /// The piece that the notation letter `c` names, or `c` itself when it names none.
    fn try_from(c: char) -> (r: Result<Piece, char>) {
        match Piece::from_char(c) {
            Some(p) => Ok(p),
            None => Err(c),
        }
    }
}

impl vstd::std_specs::convert::TryFromSpecImpl<char> for Piece {
    open spec fn obeys_try_from_spec() -> bool {
        true
    }

    open spec fn try_from_spec(c: char) -> Result<Piece, char> {
        match Piece::of_char(c) {
            Some(p) => Ok(p),
            None => Err(c),
        }
    }
}

/// The state of a chess game at one moment: the board, the side to move, the
/// castling rights, the en passant square, and the move counters.
#[derive(PartialEq, Eq, Debug)]
pub struct Position {
    board: Board,
    turn: Color,
    castling: Castling,
    en_passant: Option<Square>,
    halfmove: u32,
    fullmove: u32,
}

impl Position {
    /// The position is consistent: its board is, and its en passant square
    /// is a square.
    pub closed spec fn wf(&self) -> bool {
        &&& self.board.wf()
        &&& (self.en_passant matches Some(s) ==> s.valid())
    }

    /// The board of the position.
    pub closed spec fn board_spec(&self) -> Seq<Option<Piece>> {
        self.board@
    }

    /// The side to move.
    pub closed spec fn turn_spec(&self) -> Color {
        self.turn
    }

    /// The castling rights.
    pub closed spec fn castling_spec(&self) -> Castling {
        self.castling
    }

    /// The en passant square, if any.
    pub closed spec fn en_passant_spec(&self) -> Option<Square> {
        self.en_passant
    }

    /// The number of halfmoves since the last capture or pawn move.
    pub closed spec fn halfmove_spec(&self) -> u32 {
        self.halfmove
    }

    /// The number of the full move.
    pub closed spec fn fullmove_spec(&self) -> u32 {
        self.fullmove
    }

    /// Creates a position with the two kings alone, white to move, no
    /// castling rights and no en passant square.
    pub fn new() -> (r: Position)
        ensures
            r.wf(),
            r.board_spec() == kings_only(),
            r.turn_spec() == Color::White,
            r.castling_spec() == Castling::new_spec(),
            r.en_passant_spec() is None,
            r.halfmove_spec() == 1,
            r.fullmove_spec() == 1,
    {
        Position {
            board: Board::new(),
            turn: Color::White,
            castling: Castling::new(),
            en_passant: None,
            halfmove: 1,
            fullmove: 1,
        }
    }

    /// Returns the board of the position.
    pub fn board(&self) -> (r: &Board)
        requires
            self.wf(),
        ensures
            r.wf(),
            r@ == self.board_spec(),
    {
        &self.board
    }

    /// Returns the side to move.
    pub fn turn(&self) -> (r: Color)
        ensures
            r == self.turn_spec(),
    {
        self.turn
    }

    /// Returns the castling rights.
    pub fn castling(&self) -> (r: Castling)
        ensures
            r == self.castling_spec(),
    {
        self.castling
    }

    /// Returns the en passant square, if any.
    pub fn en_passant(&self) -> (r: Option<Square>)
        requires
            self.wf(),
        ensures
            r == self.en_passant_spec(),
            r matches Some(s) ==> s.valid(),
    {
        self.en_passant
    }
}

impl Default for Position {
    /// The starting position of a chess game.
    fn default() -> (r: Position)
        ensures
            r.wf(),
            r.board_spec() == start_placement(),
            r.turn_spec() == Color::White,
            r.castling_spec() == Castling::full_spec(),
            r.en_passant_spec() is None,
            r.halfmove_spec() == 0,
            r.fullmove_spec() == 0,
    {
        Position {
            board: Board::default(),
            turn: Color::White,
            castling: Castling::default(),
            en_passant: None,
            halfmove: 0,
            fullmove: 0,
        }
    }
}

impl Flippable for Position {
    open spec fn well_formed(&self) -> bool {
        self.wf()
    }

    /// The position seen from the opposite side: the board and the en passant
    /// square are reflected; the rest is kept.
    fn flipped(&self) -> (r: Position)
        ensures
            r.board_spec() == reversed(self.board_spec()),
            r.turn_spec() == self.turn_spec(),
            r.castling_spec() == self.castling_spec(),
            r.en_passant_spec() == match self.en_passant_spec() {
                Some(s) => Some(Square(flip_index(s.idx()) as u32)),
                None => None,
            },
            r.halfmove_spec() == self.halfmove_spec(),
            r.fullmove_spec() == self.fullmove_spec(),
    {
        let en_passant = match self.en_passant {
            Some(s) => Some(s.flipped()),
            None => None,
        };
        Position {
            board: self.board.flipped(),
            turn: self.turn,
            castling: self.castling,
            en_passant,
            halfmove: self.halfmove,
            fullmove: self.fullmove,
        }
    }
}

/// The empty squares pending in a rank of a FEN placement: their count as a
/// digit, or nothing when there are none.
pub open spec fn run_text(run: int) -> Seq<char> {
    if run > 0 {
        seq![digit_char(run)]
    } else {
        Seq::empty()
    }
}

/// The FEN text of rank `rank` of the placement `v` from file `f` on, with
/// `run` empty squares already pending: each piece by its letter, each run of
/// empty squares by its length.
pub open spec fn row_text(v: Seq<Option<Piece>>, rank: int, f: int, run: int) -> Seq<char>
    decreases 8 - f,
{
    if f >= 8 {
        run_text(run)
    } else {
        match v[rank * 8 + f] {
            Some(p) => run_text(run) + seq![p.to_char_spec()] + row_text(v, rank, f + 1, 0),
            None => row_text(v, rank, f + 1, run + 1),
        }
    }
}

/// The FEN text of the `k` highest ranks of `v`, separated by `/`.
pub open spec fn placement_rows(v: Seq<Option<Piece>>, k: int) -> Seq<char>
    decreases k,
{
    if k <= 0 {
        Seq::empty()
    } else {
        placement_rows(v, k - 1) + (if k > 1 {
            seq!['/']
        } else {
            Seq::empty()
        }) + row_text(v, 8 - k, 0, 0)
    }
}

/// The FEN text of a position.
pub open spec fn fen_text(pos: Position) -> Seq<char> {
    placement_rows(pos.board_spec(), 8) + seq![' ', pos.turn_spec().to_char_spec(), ' ']
        + pos.castling_spec().notation_spec() + seq![' '] + match pos.en_passant_spec() {
        Some(s) => s.notation_spec(),
        None => seq!['-'],
    } + seq![' '] + decimal(pos.halfmove_spec() as nat) + seq![' '] + decimal(
        pos.fullmove_spec() as nat,
    )
}

/// Appends the FEN placement of `board` to `fen`: the ranks from the eighth
/// down to the first, separated by `/`.
fn placement_str(board: &Board, fen: &mut String)
    requires
        board.wf(),
    ensures
        final(fen)@ == old(fen)@ + placement_rows(board@, 8),
{
    let ghost v = board@;
    let ghost start = fen@;
    let mut k: u32 = 0;
    while k < 8
        invariant
            k <= 8,
            board.wf(),
            v == board@,
            fen@ == start + placement_rows(v, k as int),
        decreases 8 - k,
    {
        let rank: u32 = 7 - k;
        let ghost before = fen@;
        if k > 0 {
            push_char(fen, '/');
        }
        let ghost row_start = fen@;
        let mut space: u32 = 0;
        let mut f: u32 = 0;
        while f < 8
            invariant
                f <= 8,
                space <= f,
                rank < 8,
                board.wf(),
                v == board@,
                fen@ + row_text(v, rank as int, f as int, space as int) == row_start + row_text(
                    v,
                    rank as int,
                    0,
                    0,
                ),
            decreases 8 - f,
        {
            let ghost pre = fen@;
            let ghost run = space as int;
            match board.get(Square::new(rank * 8 + f)) {
                Some(p) => {
                    if space > 0 {
                        push_char(fen, digit(space));
                    }
                    push_char(fen, p.to_char());
                    space = 0;
                    proof {
                        assert(fen@ =~= pre + run_text(run) + seq![p.to_char_spec()]);
                        assert(row_text(v, rank as int, f as int, run) == run_text(run) + seq![p.to_char_spec()] + row_text(v, rank as int, f + 1, 0));
                        assert(fen@ + row_text(v, rank as int, f + 1, 0) =~= pre + row_text(v, rank as int, f as int, run));
                    }
                },
                None => {
                    space += 1;
                },
            }
            f += 1;
        }
        let ghost pre = fen@;
        if space > 0 {
            push_char(fen, digit(space));
        }
        proof {
            assert(fen@ =~= pre + run_text(space as int));
            assert(row_text(v, rank as int, 8, space as int) == run_text(space as int));
            assert(fen@ =~= before + (if k > 0 { seq!['/'] } else { Seq::empty() }) + row_text(v, rank as int, 0, 0));
            assert(fen@ =~= start + placement_rows(v, k + 1));
        }
        k += 1;
    }
}

impl Position {
    /// Returns the FEN text of the position: placement, side to move,
    /// castling rights, en passant square and the two move counters,
    /// separated by spaces.
    #[verifier::rlimit(40)]
    pub fn to_fen_string(&self) -> (r: String)
        requires
            self.wf(),
        ensures
            r@ == fen_text(*self),
    {
        let mut fen = String::new();
        placement_str(&self.board, &mut fen);
        push_char(&mut fen, ' ');
        push_char(&mut fen, char::from(self.turn));
        push_char(&mut fen, ' ');
        let rights = self.castling.notation();
        fen.append(rights.as_str());
        push_char(&mut fen, ' ');
        match self.en_passant {
            Some(s) => {
                let n = s.notation();
                fen.append(n.as_str());
            },
            None => push_char(&mut fen, '-'),
        }
        push_char(&mut fen, ' ');
        push_decimal(&mut fen, self.halfmove);
        push_char(&mut fen, ' ');
        push_decimal(&mut fen, self.fullmove);
        proof {
            assert(fen@ =~= fen_text(*self));
        }
        fen
    }
}

/// The state of reading a FEN placement: the squares filled so far, and the
/// file and rank of the next square.
pub type PlacementState = (Seq<Option<Piece>>, int, int);

/// One character of a FEN placement: a digit from 1 to 8 skips that many
/// empty squares within the rank, `/` goes down to the next rank once the
/// current one is full, and a piece letter fills the next square.
pub open spec fn placement_step(st: PlacementState, c: char) -> Option<PlacementState> {
    let cells = st.0;
    let f = st.1;
    let r = st.2;
    match digit_value(c) {
        Some(d) => if 1 <= d <= 8 && f + d <= 8 {
            Some((cells, f + d, r))
        } else {
            None
        },
        None => if c == '/' {
            if f == 8 && r > 0 {
                Some((cells, 0, r - 1))
            } else {
                None
            }
        } else {
            match Piece::of_char(c) {
                Some(p) => if f < 8 {
                    Some((cells.update(r * 8 + f, Some(p)), f + 1, r))
                } else {
                    None
                },
                None => None,
            }
        },
    }
}

/// The state after reading the FEN placement `s` from the eighth rank's
/// first square on, or `None` if some character cannot be read.
pub open spec fn placement_read(s: Seq<char>) -> Option<PlacementState>
    decreases s.len(),
{
    if s.len() == 0 {
        Some((Seq::new(64, |i: int| None), 0, 7))
    } else {
        match placement_read(s.drop_last()) {
            Some(st) => placement_step(st, s.last()),
            None => None,
        }
    }
}

/// The side to move that a FEN field names.
pub open spec fn turn_read(s: Seq<char>) -> Option<Color> {
    if s == seq!['w'] {
        Some(Color::White)
    } else if s == seq!['b'] {
        Some(Color::Black)
    } else {
        None
    }
}

/// The rights `c` with the right that the letter `ch` names added.
pub open spec fn castling_add(c: Castling, ch: char) -> Option<Castling> {
    if ch == 'K' {
        Some(Castling(CastlingRights(true, c.0.1), c.1))
    } else if ch == 'Q' {
        Some(Castling(CastlingRights(c.0.0, true), c.1))
    } else if ch == 'k' {
        Some(Castling(c.0, CastlingRights(true, c.1.1)))
    } else if ch == 'q' {
        Some(Castling(c.0, CastlingRights(c.1.0, true)))
    } else {
        None
    }
}

/// The rights that the letters of `s` grant, or `None` if one of them is
/// not a castling letter.
pub open spec fn castling_letters(s: Seq<char>) -> Option<Castling>
    decreases s.len(),
{
    if s.len() == 0 {
        Some(Castling::new_spec())
    } else {
        match castling_letters(s.drop_last()) {
            Some(c) => castling_add(c, s.last()),
            None => None,
        }
    }
}

/// The castling rights that a FEN field names: `-` for none, otherwise at
/// most four castling letters.
pub open spec fn castling_read(s: Seq<char>) -> Option<Castling> {
    if s.len() >= 5 {
        None
    } else if s == seq!['-'] {
        Some(Castling::new_spec())
    } else {
        castling_letters(s)
    }
}

/// The en passant square that a FEN field names: `-` for none, otherwise
/// a file letter and a rank digit.
pub open spec fn en_passant_read(s: Seq<char>) -> Option<Option<Square>> {
    if s == seq!['-'] {
        Some(None)
    } else if s.len() == 2 && (exists|f: File| f.to_char_spec() == s[0]) && (exists|r: Rank|
        r.to_char_spec() == s[1]) {
        let f = choose|f: File| f.to_char_spec() == s[0];
        let r = choose|r: Rank| r.to_char_spec() == s[1];
        Some(Some(Square((r.idx() * 8 + f.idx()) as u32)))
    } else {
        None
    }
}

/// The fields of a FEN text: the placement, the side to move, the castling
/// rights, the en passant square, and the two move counters; `None` unless
/// the text has exactly six space-separated fields, each readable, and the
/// placement holds exactly one king of each color.
pub open spec fn fen_read(s: Seq<char>) -> Option<
    (Seq<Option<Piece>>, Color, Castling, Option<Square>, u32, u32),
> {
    let t = split_spaces(s);
    if t.len() != 6 {
        None
    } else {
        match (
            placement_read(t[0]),
            turn_read(t[1]),
            castling_read(t[2]),
            en_passant_read(t[3]),
            number_value(t[4]),
            number_value(t[5]),
        ) {
            (Some(pl), Some(turn), Some(c), Some(ep), Some(h), Some(fm)) => if legal_placement(
                pl.0,
            ) {
                Some((pl.0, turn, c, ep, h, fm))
            } else {
                None
            },
            _ => None,
        }
    }
}

/// Reads a FEN placement field into the piece on each square.
fn get_placement(s: &Vec<char>) -> (r: Option<[Option<Piece>; 64]>)
    ensures
        r is Some <==> placement_read(s@) is Some,
        r matches Some(a) ==> placement_read(s@) matches Some(st) && a@ == st.0,
{
    let empty: Option<Piece> = None;
    let mut placement: [Option<Piece>; 64] = vstd::array::array_fill_for_copy_types::<Option<Piece>, 64>(empty);
    proof {
        broadcast use vstd::array::group_array_axioms;
        assert(placement@ =~= Seq::new(64, |i: int| None::<Piece>));
    }
    let mut f: usize = 0;
    let mut r: usize = 7;
    let mut i: usize = 0;
    while i < s.len()
        invariant
            i <= s@.len(),
            f <= 8,
            r <= 7,
            placement_read(s@.take(i as int)) == Some((placement@, f as int, r as int)),
        decreases s@.len() - i,
    {
        proof {
            assert(s@.take(i + 1).drop_last() =~= s@.take(i as int));
            assert(s@.take(i + 1).last() == s@[i as int]);
        }
        let ch = s[i];
        match digit_of(ch) {
            Some(d) => {
                if d < 1 || d > 8 || f + d as usize > 8 {
                    proof {
                        lemma_placement_fails_on(s@, i as int);
                    }
                    return None;
                }
                f = f + d as usize;
            },
            None => {
                if ch == '/' {
                    if f != 8 || r == 0 {
                        proof {
                            lemma_placement_fails_on(s@, i as int);
                        }
                        return None;
                    }
                    f = 0;
                    r = r - 1;
                } else {
                    match Piece::from_char(ch) {
                        Some(p) => {
                            if f >= 8 {
                                proof {
                                    lemma_placement_fails_on(s@, i as int);
                                }
                                return None;
                            }
                            placement[r * 8 + f] = Some(p);
                            f = f + 1;
                        },
                        None => {
                            proof {
                                lemma_placement_fails_on(s@, i as int);
                            }
                            return None;
                        },
                    }
                }
            },
        }
        i += 1;
    }
    proof {
        assert(s@.take(s@.len() as int) =~= s@);
    }
    Some(placement)
}

proof fn lemma_placement_fails_on(s: Seq<char>, i: int)
    requires
        0 <= i < s.len(),
        placement_read(s.take(i)) matches Some(st) && placement_step(st, s[i]) is None,
    ensures
        placement_read(s) is None,
    decreases s.len(),
{
    if s.len() == i + 1 {
        assert(s.drop_last() =~= s.take(i));
    } else {
        assert(s.drop_last().take(i) =~= s.take(i));
        lemma_placement_fails_on(s.drop_last(), i);
    }
}

/// Reads a FEN side-to-move field.
fn get_turn(s: &Vec<char>) -> (r: Option<Color>)
    ensures
        r == turn_read(s@),
{
    if s.len() != 1 {
        proof {
            assert(s@ != seq!['w'] && s@ != seq!['b']);
        }
        return None;
    }
    let ch = s[0];
    if ch == 'w' {
        proof {
            assert(s@ =~= seq!['w']);
        }
        Some(Color::White)
    } else if ch == 'b' {
        proof {
            assert(s@ =~= seq!['b']);
        }
        Some(Color::Black)
    } else {
        proof {
            assert(s@ != seq!['w'] && s@ != seq!['b']);
        }
        None
    }
}

/// Reads a FEN castling field.
fn get_castling(s: &Vec<char>) -> (r: Option<Castling>)
    ensures
        r == castling_read(s@),
{
    if s.len() >= 5 {
        return None;
    }
    if s.len() == 1 && s[0] == '-' {
        proof {
            assert(s@ =~= seq!['-']);
        }
        return Some(Castling::new());
    }
    proof {
        assert(s@ != seq!['-']);
    }
    let mut castling = Castling::new();
    let mut i: usize = 0;
    while i < s.len()
        invariant
            i <= s@.len(),
            s@.len() < 5,
            s@ != seq!['-'],
            castling_letters(s@.take(i as int)) == Some(castling),
        decreases s@.len() - i,
    {
        proof {
            assert(s@.take(i + 1).drop_last() =~= s@.take(i as int));
            assert(s@.take(i + 1).last() == s@[i as int]);
        }
        let ch = s[i];
        if ch == 'K' {
            castling.0.0 = true;
        } else if ch == 'Q' {
            castling.0.1 = true;
        } else if ch == 'k' {
            castling.1.0 = true;
        } else if ch == 'q' {
            castling.1.1 = true;
        } else {
            proof {
                lemma_castling_fails_on(s@, i as int);
            }
            return None;
        }
        i += 1;
    }
    proof {
        assert(s@.take(s@.len() as int) =~= s@);
    }
    Some(castling)
}

proof fn lemma_castling_fails_on(s: Seq<char>, i: int)
    requires
        0 <= i < s.len(),
        castling_letters(s.take(i)) matches Some(c) && castling_add(c, s[i]) is None,
    ensures
        castling_letters(s) is None,
    decreases s.len(),
{
    if s.len() == i + 1 {
        assert(s.drop_last() =~= s.take(i));
    } else {
        assert(s.drop_last().take(i) =~= s.take(i));
        lemma_castling_fails_on(s.drop_last(), i);
    }
}

/// Reads a FEN en passant field.
fn get_en_passant(s: &Vec<char>) -> (r: Option<Option<Square>>)
    ensures
        r == en_passant_read(s@),
        r matches Some(Some(sq)) ==> sq.valid(),
{
    if s.len() == 1 && s[0] == '-' {
        proof {
            assert(s@ =~= seq!['-']);
        }
        return Some(None);
    }
    proof {
        assert(s@ != seq!['-']);
    }
    if s.len() != 2 {
        return None;
    }
    match (File::try_from(s[0]), Rank::try_from(s[1])) {
        (Ok(f), Ok(r)) => {
            proof {
                assert(f.to_char_spec() == s@[0]);
                assert(r.to_char_spec() == s@[1]);
                let f2 = choose|f2: File| f2.to_char_spec() == s@[0];
                let r2 = choose|r2: Rank| r2.to_char_spec() == s@[1];
                assert(f2 == f);
                assert(r2 == r);
            }
            Some(Some(Square::from(Coords(f, r))))
        },
        _ => {
            proof {
                assert forall|f: File| f.to_char_spec() != s@[0] || !(exists|r: Rank| r.to_char_spec() == s@[1]) by {
                }
            }
            None
        },
    }
}

impl Position {
    /// Reads a position from its FEN text. Fails when the text does not have
    /// exactly six space-separated fields, when a field cannot be read, or
    /// when the placement does not hold exactly one king of each color; the
    /// board then holds exactly the placement.
    pub fn from_fen_string(fen: String) -> (r: Result<Position, &'static str>)
        ensures
            r is Ok <==> fen_read(fen@) is Some,
            r matches Ok(p) ==> {
                let x = fen_read(fen@)->0;
                &&& p.wf()
                &&& p.board_spec() == x.0
                &&& p.turn_spec() == x.1
                &&& p.castling_spec() == x.2
                &&& p.en_passant_spec() == x.3
                &&& p.halfmove_spec() == x.4
                &&& p.fullmove_spec() == x.5
            },
    {
        let chars = chars_of(fen.as_str());
        let tokens = split_spaces_exec(&chars);
        if tokens.len() != 6 {
            return Err("Invalid number of fields in FEN string");
        }
        let placement = match get_placement(&tokens[0]) {
            Some(p) => p,
            None => return Err("Invalid piece placement in FEN string"),
        };
        if !board::is_legal_placement(&placement) {
            return Err("FEN placement needs exactly one king of each color");
        }
        let turn = match get_turn(&tokens[1]) {
            Some(t) => t,
            None => return Err("Invalid side to move in FEN string"),
        };
        let castling = match get_castling(&tokens[2]) {
            Some(c) => c,
            None => return Err("Invalid castling rights in FEN string"),
        };
        let en_passant = match get_en_passant(&tokens[3]) {
            Some(e) => e,
            None => return Err("Invalid en passant square in FEN string"),
        };
        let halfmove = match parse_number(&tokens[4]) {
            Some(n) => n,
            None => return Err("Invalid halfmove clock in FEN string"),
        };
        let fullmove = match parse_number(&tokens[5]) {
            Some(n) => n,
            None => return Err("Invalid fullmove number in FEN string"),
        };
        Ok(
            Position {
                board: Board::from_placement(placement),
                turn,
                castling,
                en_passant,
                halfmove,
                fullmove,
            },
        )
    }
}

impl Position {
    /// Renders the board of the position as an 8 by 8 grid of piece letters.
    pub fn render(&self) -> (r: String)
        requires
            self.wf(),
        ensures
            r@ == crate::text::grid_text(mailbox::piece_cells(self.board_spec())),
    {
        self.board.render()
    }
}

} // verus!
