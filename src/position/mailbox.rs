//! A square-centric record of board state: for each square, the piece on it, if any.

use vstd::prelude::*;
use crate::bits::{Square, Flippable};
use super::{Color, Role, Piece};

verus! {

broadcast use vstd::array::group_array_axioms;

/// The piece on each square, indexed by square.
#[derive(Debug, Copy, Clone, PartialEq, Eq)]
pub struct Mailbox(pub [Option<Piece>; 64]);

impl View for Mailbox {
    type V = Seq<Option<Piece>>;

    open spec fn view(&self) -> Seq<Option<Piece>> {
        self.0@
    }
}

/// The placement with the two kings alone, on e1 and e8.
pub open spec fn kings_only() -> Seq<Option<Piece>> {
    Seq::new(
        64,
        |i: int|
            if i == 4 {
                Some(Piece(Color::White, Role::King))
            } else if i == 60 {
                Some(Piece(Color::Black, Role::King))
            } else {
                None
            },
    )
}

/// The piece on square `i` in the starting position of a chess game.
pub open spec fn start_piece(i: int) -> Option<Piece> {
    let back = if i % 8 == 0 || i % 8 == 7 {
        Role::Rook
    } else if i % 8 == 1 || i % 8 == 6 {
        Role::Knight
    } else if i % 8 == 2 || i % 8 == 5 {
        Role::Bishop
    } else if i % 8 == 3 {
        Role::Queen
    } else {
        Role::King
    };
    if 0 <= i < 8 {
        Some(Piece(Color::White, back))
    } else if 8 <= i < 16 {
        Some(Piece(Color::White, Role::Pawn))
    } else if 48 <= i < 56 {
        Some(Piece(Color::Black, Role::Pawn))
    } else if 56 <= i < 64 {
        Some(Piece(Color::Black, back))
    } else {
        None
    }
}

/// The placement of the starting position of a chess game.
pub open spec fn start_placement() -> Seq<Option<Piece>> {
    Seq::new(64, |i: int| start_piece(i))
}

/// The placement seen from the opposite side: square `i` holds what square `63 - i` held.
pub open spec fn reversed(v: Seq<Option<Piece>>) -> Seq<Option<Piece>> {
    Seq::new(64, |i: int| v[63 - i])
}

impl Mailbox {
    /// Creates a mailbox with the two kings alone: white on e1, black on e8.
    pub fn new() -> (r: Mailbox)
        ensures
            r@ == kings_only(),
    {
        let empty: Option<Piece> = None;
        let mut array: [Option<Piece>; 64] = vstd::array::array_fill_for_copy_types::<Option<Piece>, 64>(empty);
        assert(forall|i: int| 0 <= i < 64 ==> array@[i] == empty);
        array[4] = Some(Piece(Color::White, Role::King));
        array[60] = Some(Piece(Color::Black, Role::King));
        let r = Mailbox(array);
        proof {
            assert(r@ =~= kings_only());
        }
        r
    }

    /// Creates a mailbox from the placement of pieces.
    pub fn from_placement(pm: [Option<Piece>; 64]) -> (r: Mailbox)
        ensures
            r@ == pm@,
    {
        Mailbox(pm)
    }

    /// Returns the piece on square `s`, if any.
    pub fn get(&self, s: Square) -> (r: Option<Piece>)
        requires
            s.valid(),
        ensures
            r == self@[s.idx()],
    {
        self.0[s.0 as usize]
    }

    /// Puts `p` on square `s`.
    pub fn set(&mut self, s: Square, p: Option<Piece>)
        requires
            s.valid(),
        ensures
            final(self)@ == old(self)@.update(s.idx(), p),
    {
        self.0[s.0 as usize] = p;
    }
}

impl Default for Mailbox {
    /// The starting position of a chess game.
    fn default() -> (r: Mailbox)
        ensures
            r@ == start_placement(),
    {
        let empty: Option<Piece> = None;
        let mut arr: [Option<Piece>; 64] = vstd::array::array_fill_for_copy_types::<Option<Piece>, 64>(empty);
        assert(forall|i: int| 0 <= i < 64 ==> arr@[i] == empty);
        let white_back: [Role; 8] = [
            Role::Rook,
            Role::Knight,
            Role::Bishop,
            Role::Queen,
            Role::King,
            Role::Bishop,
            Role::Knight,
            Role::Rook,
        ];
        let mut i: usize = 0;
        while i < 8
            invariant
                i <= 8,
                arr@.len() == 64,
                white_back@ == seq![Role::Rook, Role::Knight, Role::Bishop, Role::Queen, Role::King, Role::Bishop, Role::Knight, Role::Rook],
                forall|j: int| 0 <= j < 64 ==> #[trigger] arr@[j] == if (0 <= j < i || 8 <= j < 8 + i || 48 <= j < 48 + i || 56 <= j < 56 + i) {
                    start_piece(j)
                } else {
                    None
                },
            decreases 8 - i,
        {
            arr[i] = Some(Piece(Color::White, white_back[i]));
            arr[8 + i] = Some(Piece(Color::White, Role::Pawn));
            arr[48 + i] = Some(Piece(Color::Black, Role::Pawn));
            arr[56 + i] = Some(Piece(Color::Black, white_back[i]));
            i += 1;
        }
        let r = Mailbox(arr);
        proof {
            assert(r@ =~= start_placement());
        }
        r
    }
}

impl Flippable for Mailbox {
    open spec fn well_formed(&self) -> bool {
        true
    }

    /// Reverses the mailbox end to end.
    fn flipped(&self) -> (r: Mailbox)
        ensures
            r@ == reversed(self@),
    {
        let mut flipped = Mailbox::new();
        let mut i: usize = 0;
        while i < 64
            invariant
                i <= 64,
                flipped@.len() == 64,
                self@.len() == 64,
                forall|j: int| 0 <= j < i ==> #[trigger] flipped@[j] == self@[63 - j],
            decreases 64 - i,
        {
            flipped.0[i] = self.0[63 - i];
            i += 1;
        }
        proof {
            assert(flipped@ =~= reversed(self@));
        }
        flipped
    }
}

/// One character per square: the letter of its piece, or `.` when it is empty.
pub open spec fn piece_cells(v: Seq<Option<Piece>>) -> Seq<char> {
    Seq::new(
        64,
        |i: int|
            match v[i] {
                Some(p) => p.to_char_spec(),
                None => '.',
            },
    )
}

impl Mailbox {
    /// Renders the mailbox as an 8 by 8 grid of piece letters, `.` for empty
    /// squares, the eighth rank first.
    pub fn render(&self) -> (r: String)
        ensures
            r@ == crate::text::grid_text(piece_cells(self@)),
    {
        let mut cells: Vec<char> = Vec::new();
        let mut i: usize = 0;
        while i < 64
            invariant
                i <= 64,
                self@.len() == 64,
                cells@.len() == i,
                forall|j: int| 0 <= j < i ==> cells@[j] == piece_cells(self@)[j],
            decreases 64 - i,
        {
            match self.0[i] {
                Some(p) => cells.push(p.to_char()),
                None => cells.push('.'),
            }
            i += 1;
        }
        proof {
            assert(cells@ =~= piece_cells(self@));
        }
        crate::text::render_grid(&cells)
    }
}

impl Mailbox {
    /// Returns each square with its content, in ascending order of square.
    pub fn entries(&self) -> (r: Vec<(Square, Option<Piece>)>)
        ensures
            r@.len() == 64,
            forall|i: int| 0 <= i < 64 ==> #[trigger] r@[i] == (Square(i as u32), self@[i]),
    {
        let mut v: Vec<(Square, Option<Piece>)> = Vec::new();
        let mut i: usize = 0;
        while i < 64
            invariant
                i <= 64,
                self@.len() == 64,
                v@.len() == i,
                forall|j: int| 0 <= j < i ==> #[trigger] v@[j] == (Square(j as u32), self@[j]),
            decreases 64 - i,
        {
            v.push((Square(i as u32), self.0[i]));
            i += 1;
        }
        v
    }
}

} // verus!
