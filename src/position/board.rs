//! The physical, time-independent state of a chess board.
//!
//! A [`Board`] keeps track of the placement of pieces twice: as bitboards per
//! color and per role (with the kings kept by square), and as a mailbox that
//! gives the piece on each square. Every operation updates both together.

use vstd::prelude::*;
use itertools::Itertools;
use crate::bits::{Bitboard, Square, Flippable, all_squares, flip_set};
use super::mailbox::{Mailbox, kings_only, start_placement, start_piece, reversed};
use super::{Color, Role, Piece};

verus! {

broadcast use vstd::array::group_array_axioms;

/// The squares that hold a piece of color `c`.
pub open spec fn color_of(v: Seq<Option<Piece>>, c: Color) -> Set<int> {
    Set::new(|i: int| 0 <= i < 64 && (v[i] matches Some(p) && p.0 == c))
}

/// The squares that hold a piece of role `r`.
pub open spec fn role_of(v: Seq<Option<Piece>>, r: Role) -> Set<int> {
    Set::new(|i: int| 0 <= i < 64 && (v[i] matches Some(p) && p.1 == r))
}

/// The squares that hold the piece `p`.
pub open spec fn piece_of(v: Seq<Option<Piece>>, p: Piece) -> Set<int> {
    Set::new(|i: int| 0 <= i < 64 && v[i] == Some(p))
}

/// The squares that hold a piece.
pub open spec fn occupied(v: Seq<Option<Piece>>) -> Set<int> {
    Set::new(|i: int| 0 <= i < 64 && v[i] is Some)
}

/// The square of the king of color `c`.
pub open spec fn king_index(v: Seq<Option<Piece>>, c: Color) -> int {
    choose|i: int| 0 <= i < 64 && v[i] == Some(Piece(c, Role::King))
}

/// The placement after `p` is put on the empty square `s`; a king is moved
/// there from its old square instead. An occupied square leaves the placement
/// unchanged.
pub open spec fn placed(v: Seq<Option<Piece>>, s: int, p: Piece) -> Seq<Option<Piece>> {
    if v[s] is Some {
        v
    } else if p.1 == Role::King {
        v.update(king_index(v, p.0), None).update(s, Some(p))
    } else {
        v.update(s, Some(p))
    }
}

/// The placement after the piece on `from` moved to `to`.
pub open spec fn moved(v: Seq<Option<Piece>>, from: int, to: int) -> Seq<Option<Piece>> {
    v.update(from, None).update(to, v[from])
}

/// The placement holds exactly one king of color `c`.
pub open spec fn one_king(v: Seq<Option<Piece>>, c: Color) -> bool {
    &&& exists|i: int| 0 <= i < 64 && #[trigger] v[i] == Some(Piece(c, Role::King))
    &&& forall|i: int, j: int|
        0 <= i < 64 && 0 <= j < 64 && #[trigger] v[i] == Some(Piece(c, Role::King)) && #[trigger] v[j]
            == Some(Piece(c, Role::King)) ==> i == j
}

/// A placement of 64 squares with exactly one king of each color.
pub open spec fn legal_placement(v: Seq<Option<Piece>>) -> bool {
    &&& v.len() == 64
    &&& one_king(v, Color::White)
    &&& one_king(v, Color::Black)
}

/// The physical, time-independent state of a chess board.
#[derive(PartialEq, Eq, Debug)]
pub struct Board {
    colors: [Bitboard; 2],
    roles: [Bitboard; 5],
    kings: [Square; 2],
    pieces: Mailbox,
}

impl View for Board {
    type V = Seq<Option<Piece>>;

    /// The piece on each square.
    closed spec fn view(&self) -> Seq<Option<Piece>> {
        self.pieces@
    }
}

impl Board {
    /// The bitboards agree with the mailbox.
    closed spec fn bitboards_ok(&self) -> bool {
        &&& self.pieces@.len() == 64
        &&& self.colors@[0]@ == color_of(self.pieces@, Color::White)
        &&& self.colors@[1]@ == color_of(self.pieces@, Color::Black)
        &&& forall|k: int| 0 <= k < 5 ==> #[trigger] self.roles@[k]@ == role_of(self.pieces@, Role::of_index(k))
    }

    /// The king squares agree with the mailbox.
    closed spec fn kings_ok(&self) -> bool {
        &&& forall|k: int| 0 <= k < 2 ==> (#[trigger] self.kings@[k]).valid()
        &&& self.pieces@[self.kings@[0].idx()] == Some(Piece(Color::White, Role::King))
        &&& self.pieces@[self.kings@[1].idx()] == Some(Piece(Color::Black, Role::King))
        &&& forall|i: int| 0 <= i < 64 && #[trigger] self.pieces@[i] == Some(Piece(Color::White, Role::King)) ==> i == self.kings@[0].idx()
        &&& forall|i: int| 0 <= i < 64 && #[trigger] self.pieces@[i] == Some(Piece(Color::Black, Role::King)) ==> i == self.kings@[1].idx()
    }

    /// The board is consistent: its bitboards and king squares agree with its
    /// mailbox, which holds exactly one king of each color.
    pub closed spec fn wf(&self) -> bool {
        self.bitboards_ok() && self.kings_ok()
    }

    /// The square of the king of color `c`.
    closed spec fn king_at(&self, c: Color) -> Square {
        self.kings@[c.idx()]
    }

    proof fn lemma_wf(&self)
        requires
            self.wf(),
        ensures
            legal_placement(self@),
            forall|c: Color| #[trigger] king_index(self@, c) == self.king_at(c).idx(),
            forall|c: Color| (#[trigger] self.king_at(c)).valid(),
    {
        assert(self.kings@[0].valid());
        assert(self.kings@[1].valid());
        assert forall|c: Color| #[trigger] king_index(self@, c) == self.king_at(c).idx() by {
            let k = self.king_at(c).idx();
            assert(0 <= k < 64 && self@[k] == Some(Piece(c, Role::King)));
        }
        assert(self@[self.king_at(Color::White).idx()] == Some(Piece(Color::White, Role::King)));
        assert(self@[self.king_at(Color::Black).idx()] == Some(Piece(Color::Black, Role::King)));
    }
}

/// Role bitboards in order: pawns, knights, bishops, rooks, queens.
spec fn roles_match(roles: [Bitboard; 5], v: Seq<Option<Piece>>) -> bool {
    &&& roles@[0]@ == role_of(v, Role::Pawn)
    &&& roles@[1]@ == role_of(v, Role::Knight)
    &&& roles@[2]@ == role_of(v, Role::Bishop)
    &&& roles@[3]@ == role_of(v, Role::Rook)
    &&& roles@[4]@ == role_of(v, Role::Queen)
}

proof fn lemma_roles_match(roles: [Bitboard; 5], v: Seq<Option<Piece>>)
    requires
        roles_match(roles, v),
    ensures
        forall|k: int| 0 <= k < 5 ==> #[trigger] roles@[k]@ == role_of(v, Role::of_index(k)),
{
    assert forall|k: int| 0 <= k < 5 implies #[trigger] roles@[k]@ == role_of(v, Role::of_index(k)) by {
        if k == 0 {
        } else if k == 1 {
        } else if k == 2 {
        } else if k == 3 {
        } else {
        }
    }
}

impl Board {
    proof fn lemma_bitboards(&self)
        requires
            self.bitboards_ok(),
        ensures
            roles_match(self.roles, self@),
    {
        assert(Role::of_index(0) == Role::Pawn);
        assert(self.roles@[0]@ == role_of(self@, Role::Pawn));
        assert(self.roles@[1]@ == role_of(self@, Role::Knight));
        assert(self.roles@[2]@ == role_of(self@, Role::Bishop));
        assert(self.roles@[3]@ == role_of(self@, Role::Rook));
        assert(self.roles@[4]@ == role_of(self@, Role::Queen));
    }

    /// Sets square `s` to `x` in the mailbox and in the bitboards together,
    /// leaving the king squares alone.
    fn put(&mut self, s: Square, x: Option<Piece>)
        requires
            old(self).bitboards_ok(),
            s.valid(),
        ensures
            final(self).bitboards_ok(),
            final(self)@ == old(self)@.update(s.idx(), x),
            final(self).kings == old(self).kings,
    {
        proof {
            self.lemma_bitboards();
        }
        let ghost v = self@;
        let mut white = self.colors[0];
        let mut black = self.colors[1];
        let mut pawns = self.roles[0];
        let mut knights = self.roles[1];
        let mut bishops = self.roles[2];
        let mut rooks = self.roles[3];
        let mut queens = self.roles[4];
        white.remove(s);
        black.remove(s);
        pawns.remove(s);
        knights.remove(s);
        bishops.remove(s);
        rooks.remove(s);
        queens.remove(s);
        match x {
            Some(p) => {
                match p.0 {
                    Color::White => {
                        white.insert(s);
                    },
                    Color::Black => {
                        black.insert(s);
                    },
                }
                match p.1 {
                    Role::Pawn => {
                        pawns.insert(s);
                    },
                    Role::Knight => {
                        knights.insert(s);
                    },
                    Role::Bishop => {
                        bishops.insert(s);
                    },
                    Role::Rook => {
                        rooks.insert(s);
                    },
                    Role::Queen => {
                        queens.insert(s);
                    },
                    Role::King => {},
                }
            },
            None => {},
        }
        self.colors = [white, black];
        self.roles = [pawns, knights, bishops, rooks, queens];
        self.pieces.set(s, x);
        proof {
            let w = self@;
            assert(self.colors@[0]@ =~= color_of(w, Color::White));
            assert(self.colors@[1]@ =~= color_of(w, Color::Black));
            assert(self.roles@[0]@ =~= role_of(w, Role::Pawn));
            assert(self.roles@[1]@ =~= role_of(w, Role::Knight));
            assert(self.roles@[2]@ =~= role_of(w, Role::Bishop));
            assert(self.roles@[3]@ =~= role_of(w, Role::Rook));
            assert(self.roles@[4]@ =~= role_of(w, Role::Queen));
            lemma_roles_match(self.roles, w);
        }
    }
}

/// # Create methods
impl Board {
    /// Creates a board with the two kings alone, white on e1 and black on e8.
    pub fn new() -> (r: Board)
        ensures
            r.wf(),
            r@ == kings_only(),
    {
        let white_king = Square::new(4);
        let black_king = Square::new(60);
        let r = Board {
            colors: [Bitboard::square(white_king), Bitboard::square(black_king)],
            roles: [
                Bitboard::empty(),
                Bitboard::empty(),
                Bitboard::empty(),
                Bitboard::empty(),
                Bitboard::empty(),
            ],
            kings: [white_king, black_king],
            pieces: Mailbox::new(),
        };
        proof {
            let v = r@;
            assert(r.colors@[0]@ =~= color_of(v, Color::White));
            assert(r.colors@[1]@ =~= color_of(v, Color::Black));
            assert(r.roles@[0]@ =~= role_of(v, Role::Pawn));
            assert(r.roles@[1]@ =~= role_of(v, Role::Knight));
            assert(r.roles@[2]@ =~= role_of(v, Role::Bishop));
            assert(r.roles@[3]@ =~= role_of(v, Role::Rook));
            assert(r.roles@[4]@ =~= role_of(v, Role::Queen));
            lemma_roles_match(r.roles, v);
        }
        r
    }
}

/// # Read methods
impl Board {
    /// Gets the piece on square `s`, if any.
    pub fn get(&self, s: Square) -> (r: Option<Piece>)
        requires
            self.wf(),
            s.valid(),
        ensures
            r == self@[s.idx()],
    {
        self.pieces.get(s)
    }

    /// Gets the piece on square `s`, if any, from the bitboards and king
    /// squares instead of the mailbox. It is slower than [`get`](Self::get)
    /// and serves to cross-check it.
    pub fn get_bitboard(&self, s: Square) -> (r: Option<Piece>)
        requires
            self.wf(),
            s.valid(),
        ensures
            r == self@[s.idx()],
    {
        proof {
            self.lemma_bitboards();
            self.lemma_wf();
        }
        if self.kings[0].0 == s.0 {
            return Some(Piece(Color::White, Role::King));
        } else if self.kings[1].0 == s.0 {
            return Some(Piece(Color::Black, Role::King));
        }
        let white = self.colors[0].contains(s);
        let black = self.colors[1].contains(s);
        let c = if white {
            Color::White
        } else if black {
            Color::Black
        } else {
            return None;
        };
        let mut k: usize = 0;
        while k < 5
            invariant
                k <= 5,
                self.wf(),
                s.valid(),
                roles_match(self.roles, self@),
                self@[s.idx()] matches Some(p) && p.0 == c && p.1 != Role::King,
                forall|j: int| 0 <= j < k ==> !(#[trigger] self.roles@[j])@.contains(s.idx()),
            decreases 5 - k,
        {
            if self.roles[k].contains(s) {
                proof {
                    lemma_roles_match(self.roles, self@);
                }
                return Some(Piece(c, Role::from_index(k)));
            }
            k += 1;
        }
        proof {
            lemma_roles_match(self.roles, self@);
            let p = self@[s.idx()]->0;
            assert(!self.roles@[p.1.idx()]@.contains(s.idx()));
        }
        None
    }

    /// Gets the bitboard of all squares that hold a piece of color `c`.
    pub fn color(&self, c: Color) -> (r: Bitboard)
        requires
            self.wf(),
        ensures
            r@ == color_of(self@, c),
    {
        self.colors[c.index()]
    }

    /// Gets the bitboard of all squares that hold a piece of role `r`, which
    /// is not the king (see [`king_square`](Self::king_square)).
    pub fn role(&self, r: Role) -> (b: Bitboard)
        requires
            self.wf(),
            r != Role::King,
        ensures
            b@ == role_of(self@, r),
    {
        proof {
            self.lemma_bitboards();
            lemma_roles_match(self.roles, self@);
        }
        self.roles[r.index()]
    }

    /// Gets the bitboard of all squares that hold the piece `p`, which is not
    /// a king (see [`king_square`](Self::king_square)).
    pub fn piece(&self, p: Piece) -> (r: Bitboard)
        requires
            self.wf(),
            p.1 != Role::King,
        ensures
            r@ == piece_of(self@, p),
    {
        let r = self.color(p.0).intersection(self.role(p.1));
        proof {
            assert(r@ =~= piece_of(self@, p));
        }
        r
    }

    /// Gets the square of the king of color `c`.
    pub fn king_square(&self, c: Color) -> (r: Square)
        requires
            self.wf(),
        ensures
            r.valid(),
            r.idx() == king_index(self@, c),
            self@[r.idx()] == Some(Piece(c, Role::King)),
    {
        proof {
            self.lemma_wf();
        }
        self.kings[c.index()]
    }

    /// Gets the bitboard that holds the square of the king of color `c` alone.
    pub fn king_bitboard(&self, c: Color) -> (r: Bitboard)
        requires
            self.wf(),
        ensures
            r@ == set![king_index(self@, c)],
    {
        Bitboard::square(self.king_square(c))
    }

    /// Gets the bitboard of all occupied squares.
    pub fn all(&self) -> (r: Bitboard)
        requires
            self.wf(),
        ensures
            r@ == occupied(self@),
    {
        let r = self.colors[0].union(self.colors[1]);
        proof {
            assert(r@ =~= occupied(self@));
        }
        r
    }

    /// Gets the bitboard of all empty squares.
    pub fn none(&self) -> (r: Bitboard)
        requires
            self.wf(),
        ensures
            r@ == all_squares().difference(occupied(self@)),
    {
        self.all().complement()
    }
}

/// # Update methods
impl Board {
    /// Places piece `p` on square `s` if it is empty and returns `true`;
    /// returns `false` and changes nothing if `s` is occupied.
    ///
    /// A king is not added but moved to `s` from its old square, so that each
    /// color keeps exactly one king.
    pub fn place(&mut self, s: Square, p: Piece) -> (r: bool)
        requires
            old(self).wf(),
            s.valid(),
        ensures
            final(self).wf(),
            r == old(self)@[s.idx()] is None,
            final(self)@ == placed(old(self)@, s.idx(), p),
    {
        proof {
            self.lemma_wf();
        }
        match self.pieces.get(s) {
            Some(_) => false,
            None => {
                if p.1 == Role::King {
                    let ci = p.0.index();
                    let old_s = self.kings[ci];
                    self.put(old_s, None);
                    self.put(s, Some(p));
                    self.kings[ci] = s;
                } else {
                    self.put(s, Some(p));
                }
                proof {
                    let v = self@;
                    assert forall|i: int| 0 <= i < 64 && #[trigger] v[i] == Some(Piece(Color::White, Role::King)) implies i == self.kings@[0].idx() by {
                    }
                    assert forall|i: int| 0 <= i < 64 && #[trigger] v[i] == Some(Piece(Color::Black, Role::King)) implies i == self.kings@[1].idx() by {
                    }
                }
                true
            },
        }
    }

    /// Puts piece `p`, which is not a king, on square `s`, which holds no
    /// king, and returns the piece that was there before, if any.
    pub fn replace(&mut self, s: Square, p: Piece) -> (r: Option<Piece>)
        requires
            old(self).wf(),
            s.valid(),
            p.1 != Role::King,
            !(old(self)@[s.idx()] matches Some(q) && q.1 == Role::King),
        ensures
            final(self).wf(),
            r == old(self)@[s.idx()],
            final(self)@ == old(self)@.update(s.idx(), Some(p)),
    {
        proof {
            self.lemma_wf();
        }
        let captured = self.pieces.get(s);
        self.put(s, Some(p));
        captured
    }

    /// Moves the piece on `s_from`, which is not a king, to `s_to`, and
    /// returns the piece captured there, if any. The captured piece is not a
    /// king either; use [`king_move`](Self::king_move) to move a king.
    pub fn move_piece(&mut self, s_from: Square, s_to: Square) -> (r: Option<Piece>)
        requires
            old(self).wf(),
            s_from.valid(),
            s_to.valid(),
            s_from != s_to,
            old(self)@[s_from.idx()] matches Some(q) && q.1 != Role::King,
            !(old(self)@[s_to.idx()] matches Some(q) && q.1 == Role::King),
        ensures
            final(self).wf(),
            r == old(self)@[s_to.idx()],
            final(self)@ == moved(old(self)@, s_from.idx(), s_to.idx()),
    {
        proof {
            self.lemma_wf();
        }
        let mover = self.pieces.get(s_from);
        let captured = self.pieces.get(s_to);
        self.put(s_from, None);
        self.put(s_to, mover);
        captured
    }

    /// Moves the king of color `c` to `s_to`, which holds no king, and
    /// returns the piece captured there, if any.
    pub fn king_move(&mut self, c: Color, s_to: Square) -> (r: Option<Piece>)
        requires
            old(self).wf(),
            s_to.valid(),
            !(old(self)@[s_to.idx()] matches Some(q) && q.1 == Role::King),
        ensures
            final(self).wf(),
            r == old(self)@[s_to.idx()],
            final(self)@ == moved(old(self)@, king_index(old(self)@, c), s_to.idx()),
    {
        proof {
            self.lemma_wf();
        }
        let ci = c.index();
        let s_from = self.kings[ci];
        let captured = self.pieces.get(s_to);
        self.put(s_from, None);
        self.put(s_to, Some(Piece(c, Role::King)));
        self.kings[ci] = s_to;
        proof {
            let v = self@;
            assert forall|i: int| 0 <= i < 64 && #[trigger] v[i] == Some(Piece(Color::White, Role::King)) implies i == self.kings@[0].idx() by {
            }
            assert forall|i: int| 0 <= i < 64 && #[trigger] v[i] == Some(Piece(Color::Black, Role::King)) implies i == self.kings@[1].idx() by {
            }
        }
        captured
    }
}

impl Board {
    /// A board with no piece at all, its king squares both on `a1`; it is not
    /// consistent, and serves as the start of building one.
    fn blank() -> (r: Board)
        ensures
            r.bitboards_ok(),
            r@ == Seq::new(64, |i: int| None::<Piece>),
            forall|k: int| 0 <= k < 2 ==> (#[trigger] r.kings@[k]).valid(),
    {
        let e = Bitboard::empty();
        let r = Board {
            colors: [e, e],
            roles: [e, e, e, e, e],
            kings: [Square::new(0), Square::new(0)],
            pieces: Mailbox::from_placement(
                vstd::array::array_fill_for_copy_types::<Option<Piece>, 64>(None),
            ),
        };
        proof {
            let v = r@;
            assert(v =~= Seq::new(64, |i: int| None::<Piece>));
            assert(r.colors@[0]@ =~= color_of(v, Color::White));
            assert(r.colors@[1]@ =~= color_of(v, Color::Black));
            assert(r.roles@[0]@ =~= role_of(v, Role::Pawn));
            assert(r.roles@[1]@ =~= role_of(v, Role::Knight));
            assert(r.roles@[2]@ =~= role_of(v, Role::Bishop));
            assert(r.roles@[3]@ =~= role_of(v, Role::Rook));
            assert(r.roles@[4]@ =~= role_of(v, Role::Queen));
            lemma_roles_match(r.roles, v);
        }
        r
    }

    /// Creates a board holding exactly the placement `pm`, which has one
    /// king of each color.
    pub fn from_placement(pm: [Option<Piece>; 64]) -> (r: Board)
        requires
            legal_placement(pm@),
        ensures
            r.wf(),
            r@ == pm@,
    {
        let mut board = Board::blank();
        let mut i: usize = 0;
        while i < 64
            invariant
                i <= 64,
                legal_placement(pm@),
                board.bitboards_ok(),
                forall|k: int| 0 <= k < 2 ==> (#[trigger] board.kings@[k]).valid(),
                forall|j: int| 0 <= j < i ==> #[trigger] board@[j] == pm@[j],
                forall|j: int| i <= j < 64 ==> #[trigger] board@[j] is None,
                (exists|j: int| 0 <= j < i && #[trigger] pm@[j] == Some(Piece(Color::White, Role::King)))
                    ==> pm@[board.kings@[0].idx()] == Some(Piece(Color::White, Role::King)),
                (exists|j: int| 0 <= j < i && #[trigger] pm@[j] == Some(Piece(Color::Black, Role::King)))
                    ==> pm@[board.kings@[1].idx()] == Some(Piece(Color::Black, Role::King)),
            decreases 64 - i,
        {
            let s = Square::new(i as u32);
            let x = pm[i];
            board.put(s, x);
            match x {
                Some(p) => {
                    if p.1 == Role::King {
                        let ci = p.0.index();
                        board.kings[ci] = s;
                    }
                },
                None => {},
            }
            proof {
                if exists|j: int| 0 <= j < i + 1 && #[trigger] pm@[j] == Some(Piece(Color::White, Role::King)) {
                    if pm@[i as int] != Some(Piece(Color::White, Role::King)) {
                        let j = choose|j: int| 0 <= j < i + 1 && #[trigger] pm@[j] == Some(Piece(Color::White, Role::King));
                        assert(j < i);
                    }
                }
                if exists|j: int| 0 <= j < i + 1 && #[trigger] pm@[j] == Some(Piece(Color::Black, Role::King)) {
                    if pm@[i as int] != Some(Piece(Color::Black, Role::King)) {
                        let j = choose|j: int| 0 <= j < i + 1 && #[trigger] pm@[j] == Some(Piece(Color::Black, Role::King));
                        assert(j < i);
                    }
                }
            }
            i += 1;
        }
        proof {
            assert(board@ =~= pm@);
            let w = choose|j: int| 0 <= j < 64 && #[trigger] pm@[j] == Some(Piece(Color::White, Role::King));
            let b = choose|j: int| 0 <= j < 64 && #[trigger] pm@[j] == Some(Piece(Color::Black, Role::King));
            assert(pm@[w] == Some(Piece(Color::White, Role::King)));
            assert(pm@[b] == Some(Piece(Color::Black, Role::King)));
            assert forall|j: int| 0 <= j < 64 && #[trigger] board.pieces@[j] == Some(Piece(Color::White, Role::King)) implies j == board.kings@[0].idx() by {
                assert(pm@[j] == Some(Piece(Color::White, Role::King)));
            }
            assert forall|j: int| 0 <= j < 64 && #[trigger] board.pieces@[j] == Some(Piece(Color::Black, Role::King)) implies j == board.kings@[1].idx() by {
                assert(pm@[j] == Some(Piece(Color::Black, Role::King)));
            }
        }
        board
    }

    /// A consistent board holds 64 squares with exactly one king of each color.
    pub proof fn lemma_legal(&self)
        requires
            self.wf(),
        ensures
            legal_placement(self@),
    {
        self.lemma_wf();
    }
}

proof fn lemma_flip_color(v: Seq<Option<Piece>>, c: Color)
    requires
        v.len() == 64,
    ensures
        flip_set(color_of(v, c)) == color_of(reversed(v), c),
{
    assert(flip_set(color_of(v, c)) =~= color_of(reversed(v), c));
}

proof fn lemma_flip_role(v: Seq<Option<Piece>>, r: Role)
    requires
        v.len() == 64,
    ensures
        flip_set(role_of(v, r)) == role_of(reversed(v), r),
{
    assert(flip_set(role_of(v, r)) =~= role_of(reversed(v), r));
}

impl Flippable for Board {
    open spec fn well_formed(&self) -> bool {
        self.wf()
    }

    /// The board seen from the opposite side: every bitboard and both king
    /// squares are reflected through the center, and the mailbox is reversed.
    fn flipped(&self) -> (r: Board)
        ensures
            r@ == reversed(self@),
    {
        proof {
            self.lemma_wf();
            self.lemma_bitboards();
        }
        let r = Board {
            colors: [self.colors[0].flipped(), self.colors[1].flipped()],
            roles: [
                self.roles[0].flipped(),
                self.roles[1].flipped(),
                self.roles[2].flipped(),
                self.roles[3].flipped(),
                self.roles[4].flipped(),
            ],
            kings: [self.kings[0].flipped(), self.kings[1].flipped()],
            pieces: self.pieces.flipped(),
        };
        proof {
            let v = self@;
            lemma_flip_color(v, Color::White);
            lemma_flip_color(v, Color::Black);
            lemma_flip_role(v, Role::Pawn);
            lemma_flip_role(v, Role::Knight);
            lemma_flip_role(v, Role::Bishop);
            lemma_flip_role(v, Role::Rook);
            lemma_flip_role(v, Role::Queen);
            lemma_roles_match(r.roles, r@);
            let w = r@;
            assert forall|i: int| 0 <= i < 64 && #[trigger] w[i] == Some(Piece(Color::White, Role::King)) implies i == r.kings@[0].idx() by {
                assert(v[63 - i] == w[i]);
            }
            assert forall|i: int| 0 <= i < 64 && #[trigger] w[i] == Some(Piece(Color::Black, Role::King)) implies i == r.kings@[1].idx() by {
                assert(v[63 - i] == w[i]);
            }
        }
        r
    }
}

proof fn lemma_start_words(j: u64)
    by (bit_vector)
    requires
        j < 64,
    ensures
        ((0x0000_0000_0000_FFFFu64 >> j) & 1u64 == 1u64) <==> j < 16,
        ((0xFFFF_0000_0000_0000u64 >> j) & 1u64 == 1u64) <==> j >= 48,
        ((0x00FF_0000_0000_FF00u64 >> j) & 1u64 == 1u64) <==> ((8 <= j && j < 16) || (48 <= j
            && j < 56)),
        ((0x4200_0000_0000_0042u64 >> j) & 1u64 == 1u64) <==> ((j < 8 || j >= 56) && (j % 8 == 1
            || j % 8 == 6)),
        ((0x2400_0000_0000_0024u64 >> j) & 1u64 == 1u64) <==> ((j < 8 || j >= 56) && (j % 8 == 2
            || j % 8 == 5)),
        ((0x8100_0000_0000_0081u64 >> j) & 1u64 == 1u64) <==> ((j < 8 || j >= 56) && (j % 8 == 0
            || j % 8 == 7)),
        ((0x0800_0000_0000_0008u64 >> j) & 1u64 == 1u64) <==> ((j < 8 || j >= 56) && j % 8 == 3),
{
}

impl Default for Board {
    /// The starting position of a chess game.
    fn default() -> (r: Board)
        ensures
            r.wf(),
            r@ == start_placement(),
    {
        let r = Board {
            colors: [Bitboard::new(0x0000_0000_0000_FFFF), Bitboard::new(0xFFFF_0000_0000_0000)],
            roles: [
                Bitboard::new(0x00FF_0000_0000_FF00),
                Bitboard::new(0x4200_0000_0000_0042),
                Bitboard::new(0x2400_0000_0000_0024),
                Bitboard::new(0x8100_0000_0000_0081),
                Bitboard::new(0x0800_0000_0000_0008),
            ],
            kings: [Square::new(4), Square::new(60)],
            pieces: Mailbox::default(),
        };
        proof {
            let v = r@;
            assert forall|i: int| 0 <= i < 64 implies {
                &&& (r.colors@[0]@.contains(i) <==> color_of(v, Color::White).contains(i))
                &&& (r.colors@[1]@.contains(i) <==> color_of(v, Color::Black).contains(i))
                &&& (r.roles@[0]@.contains(i) <==> role_of(v, Role::Pawn).contains(i))
                &&& (r.roles@[1]@.contains(i) <==> role_of(v, Role::Knight).contains(i))
                &&& (r.roles@[2]@.contains(i) <==> role_of(v, Role::Bishop).contains(i))
                &&& (r.roles@[3]@.contains(i) <==> role_of(v, Role::Rook).contains(i))
                &&& (r.roles@[4]@.contains(i) <==> role_of(v, Role::Queen).contains(i))
            } by {
                let j = i as u64;
                lemma_start_words(j);
                assert(j % 8 == (i % 8) as u64);
            }
            assert(r.colors@[0]@ =~= color_of(v, Color::White));
            assert(r.colors@[1]@ =~= color_of(v, Color::Black));
            assert(r.roles@[0]@ =~= role_of(v, Role::Pawn));
            assert(r.roles@[1]@ =~= role_of(v, Role::Knight));
            assert(r.roles@[2]@ =~= role_of(v, Role::Bishop));
            assert(r.roles@[3]@ =~= role_of(v, Role::Rook));
            assert(r.roles@[4]@ =~= role_of(v, Role::Queen));
            lemma_roles_match(r.roles, v);
            assert(v[4] == start_piece(4));
            assert(v[60] == start_piece(60));
        }
        r
    }
}

proof fn lemma_flip_set_len(s: Set<int>)
    requires
        s.subset_of(all_squares()),
    ensures
        s.finite(),
        flip_set(s).finite(),
        flip_set(s).len() == s.len(),
{
    vstd::set_lib::lemma_int_range(0, 64);
    assert(all_squares() =~= vstd::set_lib::set_int_range(0, 64));
    vstd::set_lib::lemma_len_subset(s, all_squares());
    let f = |i: int| 63 - i;
    assert forall|x: int| #[trigger] flip_set(s).contains(x) implies s.map(f).contains(x) by {
        assert(s.contains(63 - x) && x == f(63 - x));
    }
    assert(s.map(f) =~= flip_set(s));
    vstd::set_lib::lemma_map_size(s, flip_set(s), f);
}

/// Flipping a placement twice gives it back, and flipping keeps the number
/// of pieces of each color and of each role.
pub proof fn lemma_flip_involution(v: Seq<Option<Piece>>)
    requires
        v.len() == 64,
    ensures
        reversed(reversed(v)) == v,
        forall|c: Color| #[trigger] color_of(reversed(v), c).len() == color_of(v, c).len(),
        forall|r: Role| #[trigger] role_of(reversed(v), r).len() == role_of(v, r).len(),
{
    assert(reversed(reversed(v)) =~= v);
    assert forall|c: Color| #[trigger] color_of(reversed(v), c).len() == color_of(v, c).len() by {
        lemma_flip_color(v, c);
        lemma_flip_set_len(color_of(v, c));
    }
    assert forall|r: Role| #[trigger] role_of(reversed(v), r).len() == role_of(v, r).len() by {
        lemma_flip_role(v, r);
        lemma_flip_set_len(role_of(v, r));
    }
}

/// Two consistent boards with the same pieces on the same squares are equal,
/// so a board flipped twice is the board itself.
pub proof fn lemma_same_view_same_board(a: Board, b: Board)
    requires
        a.wf(),
        b.wf(),
        a@ == b@,
    ensures
        a == b,
{
    a.lemma_bitboards();
    b.lemma_bitboards();
    a.lemma_wf();
    b.lemma_wf();
    crate::bits::lemma_bits_ext(a.colors@[0].0, b.colors@[0].0);
    crate::bits::lemma_bits_ext(a.colors@[1].0, b.colors@[1].0);
    assert(a.colors@ =~= b.colors@);
    assert(a.colors == b.colors);
    assert forall|k: int| 0 <= k < 5 implies a.roles@[k] == b.roles@[k] by {
        lemma_roles_match(a.roles, a@);
        lemma_roles_match(b.roles, b@);
        crate::bits::lemma_bits_ext(a.roles@[k].0, b.roles@[k].0);
    }
    assert(a.roles@ =~= b.roles@);
    assert(a.roles == b.roles);
    assert(a.king_at(Color::White) == b.king_at(Color::White));
    assert(a.king_at(Color::Black) == b.king_at(Color::Black));
    assert(a.kings@ =~= b.kings@);
    assert(a.kings == b.kings);
    assert(a.pieces.0@ =~= b.pieces.0@);
    assert(a.pieces.0 =~= b.pieces.0);
    assert(a.pieces == b.pieces);
}

/// Reading a square right after placing a piece on it gives that piece, when
/// the square was empty.
pub proof fn lemma_place_then_get(v: Seq<Option<Piece>>, s: int, p: Piece)
    requires
        legal_placement(v),
        0 <= s < 64,
        v[s] is None,
    ensures
        placed(v, s, p)[s] == Some(p),
{
}

/// After a move from `a` to `b`, square `a` is empty and `b` holds the piece
/// that moved.
pub proof fn lemma_move_then_get(v: Seq<Option<Piece>>, a: int, b: int)
    requires
        legal_placement(v),
        0 <= a < 64,
        0 <= b < 64,
        a != b,
        v[a] is Some,
    ensures
        moved(v, a, b)[a] is None,
        moved(v, a, b)[b] == v[a],
{
}

/// Every pair of elements of `v` at positions `i < j` is among `r`.
#[verifier::opaque]
pub open spec fn covers_pairs(v: Seq<Bitboard>, r: Seq<Vec<Bitboard>>) -> bool {
    forall|i: int, j: int|
        #![trigger v[i], v[j]]
        0 <= i < j < v.len() ==> exists|k: int|
            0 <= k < r.len() && (#[trigger] r[k])@ == seq![v[i], v[j]]
}

/// Relies on `itertools::Itertools::combinations` with `k = 2`: the
/// two-element combinations of `v`, one `[v[i], v[j]]` for each pair of
/// positions `i < j`.
#[verifier::external_body]
fn pairs(v: Vec<Bitboard>) -> (r: Vec<Vec<Bitboard>>)
    ensures
        forall|k: int|
            0 <= k < r@.len() ==> (#[trigger] r@[k])@.len() == 2 && exists|i: int, j: int|
                0 <= i < j < v@.len() && r@[k]@[0] == v@[i] && r@[k]@[1] == v@[j],
        covers_pairs(v@, r@),
{
    v.into_iter().combinations(2).collect()
}

/// # Debug methods
impl Board {
    /// What square `i` must hold in every bitboard and king square, given the
    /// piece that the mailbox gives it.
    closed spec fn square_ok(&self, i: int) -> bool {
        let o = self.pieces@[i];
        &&& self.colors@[0]@.contains(i) == (o matches Some(p) && p.0 == Color::White)
        &&& self.colors@[1]@.contains(i) == (o matches Some(p) && p.0 == Color::Black)
        &&& forall|k: int| 0 <= k < 5 ==> (#[trigger] self.roles@[k])@.contains(i) == (o matches Some(p) && p.1 == Role::of_index(k))
        &&& (o == Some(Piece(Color::White, Role::King))) == (self.kings@[0].idx() == i)
        &&& (o == Some(Piece(Color::Black, Role::King))) == (self.kings@[1].idx() == i)
    }

    proof fn lemma_square_ok(&self)
        requires
            self.pieces@.len() == 64,
            forall|k: int| 0 <= k < 2 ==> (#[trigger] self.kings@[k]).valid(),
        ensures
            self.wf() <==> forall|i: int| 0 <= i < 64 ==> #[trigger] self.square_ok(i),
    {
        if forall|i: int| 0 <= i < 64 ==> #[trigger] self.square_ok(i) {
            let v = self@;
            assert(self.colors@[0]@ =~= color_of(v, Color::White)) by {
                assert forall|i: int| self.colors@[0]@.contains(i) implies 0 <= i < 64 by {
                    crate::bits::lemma_bits_finite(self.colors@[0].0);
                }
                assert forall|i: int| 0 <= i < 64 implies (self.colors@[0]@.contains(i) == color_of(v, Color::White).contains(i)) by {
                    assert(self.square_ok(i));
                }
            }
            assert(self.colors@[1]@ =~= color_of(v, Color::Black)) by {
                assert forall|i: int| self.colors@[1]@.contains(i) implies 0 <= i < 64 by {
                    crate::bits::lemma_bits_finite(self.colors@[1].0);
                }
                assert forall|i: int| 0 <= i < 64 implies (self.colors@[1]@.contains(i) == color_of(v, Color::Black).contains(i)) by {
                    assert(self.square_ok(i));
                }
            }
            assert forall|k: int| 0 <= k < 5 implies #[trigger] self.roles@[k]@ == role_of(v, Role::of_index(k)) by {
                assert forall|i: int| self.roles@[k]@.contains(i) implies 0 <= i < 64 by {
                    crate::bits::lemma_bits_finite(self.roles@[k].0);
                }
                assert forall|i: int| 0 <= i < 64 implies (self.roles@[k]@.contains(i) == role_of(v, Role::of_index(k)).contains(i)) by {
                    assert(self.square_ok(i));
                }
                assert(self.roles@[k]@ =~= role_of(v, Role::of_index(k)));
            }
            assert(self.square_ok(self.kings@[0].idx()));
            assert(self.square_ok(self.kings@[1].idx()));
            assert forall|i: int| 0 <= i < 64 && #[trigger] self.pieces@[i] == Some(Piece(Color::White, Role::King)) implies i == self.kings@[0].idx() by {
                assert(self.square_ok(i));
            }
            assert forall|i: int| 0 <= i < 64 && #[trigger] self.pieces@[i] == Some(Piece(Color::Black, Role::King)) implies i == self.kings@[1].idx() by {
                assert(self.square_ok(i));
            }
        }
        if self.wf() {
            self.lemma_bitboards();
            assert forall|i: int| 0 <= i < 64 implies #[trigger] self.square_ok(i) by {
                assert(self.roles@[0]@.contains(i) == role_of(self@, Role::Pawn).contains(i));
            }
        }
    }

    /// Whether the bitboards and king squares agree with the mailbox on square `s`.
    fn square_agrees(&self, s: Square) -> (r: bool)
        requires
            s.valid(),
            self.pieces@.len() == 64,
        ensures
            r == self.square_ok(s.idx()),
    {
        let o = self.pieces.get(s);
        let (is_white, is_black) = match o {
            Some(p) => (p.0 == Color::White, p.0 == Color::Black),
            None => (false, false),
        };
        if self.colors[0].contains(s) != is_white || self.colors[1].contains(s) != is_black {
            return false;
        }
        let mut k: usize = 0;
        while k < 5
            invariant
                k <= 5,
                s.valid(),
                o == self.pieces@[s.idx()],
                forall|q: int| 0 <= q < k ==> (#[trigger] self.roles@[q])@.contains(s.idx()) == (o matches Some(p) && p.1 == Role::of_index(q)),
            decreases 5 - k,
        {
            let has_role = match o {
                Some(p) => p.1 == Role::from_index(k),
                None => false,
            };
            if self.roles[k].contains(s) != has_role {
                return false;
            }
            k += 1;
        }
        let white_king = o == Some(Piece(Color::White, Role::King));
        let black_king = o == Some(Piece(Color::Black, Role::King));
        white_king == (self.kings[0].0 == s.0) && black_king == (self.kings[1].0 == s.0)
    }

    proof fn lemma_roles_disjoint(&self, i: int, j: int)
        requires
            self.wf(),
            0 <= i < j < 5,
        ensures
            self.roles@[i]@.disjoint(self.roles@[j]@),
    {
        self.lemma_bitboards();
        lemma_roles_match(self.roles, self@);
        assert(self.roles@[i]@ == role_of(self@, Role::of_index(i)));
        assert(self.roles@[j]@ == role_of(self@, Role::of_index(j)));
        assert(Role::of_index(i) != Role::of_index(j));
    }

    /// Whether no two role bitboards share a square, checked pair by pair.
    fn roles_disjoint(&self) -> (r: bool)
        ensures
            !r ==> !self.wf(),
    {
        let pieces = vec![self.roles[0], self.roles[1], self.roles[2], self.roles[3], self.roles[4]];
        proof {
            assert(pieces@ =~= self.roles@);
        }
        let pieces_pairings = pairs(pieces);
        let mut k: usize = 0;
        while k < pieces_pairings.len()
            invariant
                k <= pieces_pairings@.len(),
                forall|q: int|
                    0 <= q < pieces_pairings@.len() ==> (#[trigger] pieces_pairings@[q])@.len() == 2
                        && exists|i: int, j: int|
                        0 <= i < j < 5 && pieces_pairings@[q]@[0] == self.roles@[i]
                            && pieces_pairings@[q]@[1] == self.roles@[j],
            decreases pieces_pairings@.len() - k,
        {
            let pair = &pieces_pairings[k];
            let both = pair[0].intersection(pair[1]);
            if !both.is_empty() {
                proof {
                    let q = k as int;
                    let (i, j) = choose|i: int, j: int|
                        0 <= i < j < 5 && pieces_pairings@[q]@[0] == self.roles@[i]
                            && pieces_pairings@[q]@[1] == self.roles@[j];
                    if self.wf() {
                        self.lemma_roles_disjoint(i, j);
                        assert(both@ =~= Set::<int>::empty());
                    }
                }
                return false;
            }
            k += 1;
        }
        true
    }

    /// Re-derives every invariant of the board from its fields and returns
    /// whether all hold: the king squares are squares, the two colors are
    /// disjoint, the roles are pairwise disjoint, the kings stand on different
    /// squares, and on every square the bitboards and king squares agree with
    /// the mailbox.
    pub fn debug_verify(&self) -> (r: bool)
        ensures
            r == self.wf(),
    {
        if self.kings[0].0 >= 64 || self.kings[1].0 >= 64 {
            return false;
        }
        proof {
            self.lemma_square_ok();
        }
        let white = self.colors[0];
        let black = self.colors[1];
        if !white.intersection(black).is_empty() {
            proof {
                if self.wf() {
                    assert(white@.intersect(black@) =~= Set::<int>::empty());
                }
            }
            return false;
        }
        if !self.roles_disjoint() {
            return false;
        }
        if self.kings[0].0 == self.kings[1].0 {
            proof {
                if self.wf() {
                    self.lemma_wf();
                }
            }
            return false;
        }
        let mut i: u32 = 0;
        while i < 64
            invariant
                i <= 64,
                self.pieces@.len() == 64,
                self.wf() <==> forall|j: int| 0 <= j < 64 ==> #[trigger] self.square_ok(j),
                forall|j: int| 0 <= j < i ==> #[trigger] self.square_ok(j),
            decreases 64 - i,
        {
            if !self.square_agrees(Square(i)) {
                return false;
            }
            i += 1;
        }
        true
    }
}

impl Board {
    /// Renders the board as an 8 by 8 grid of piece letters (upper case for
    /// white), `.` for empty squares, the eighth rank first.
    pub fn render(&self) -> (r: String)
        ensures
            r@ == crate::text::grid_text(super::mailbox::piece_cells(self@)),
    {
        self.pieces.render()
    }
}


/// Returns whether `pm` holds exactly one king of color `c`.
fn has_one_king(pm: &[Option<Piece>; 64], c: Color) -> (r: bool)
    ensures
        r == one_king(pm@, c),
{
    let king = Some(Piece(c, Role::King));
    let mut found: Option<usize> = None;
    let mut i: usize = 0;
    while i < 64
        invariant
            i <= 64,
            pm@.len() == 64,
            king == Some(Piece(c, Role::King)),
            found is None ==> forall|j: int| 0 <= j < i ==> #[trigger] pm@[j] != king,
            found matches Some(k) ==> k < i && pm@[k as int] == king,
            forall|j1: int, j2: int|
                0 <= j1 < i && 0 <= j2 < i && #[trigger] pm@[j1] == king && #[trigger] pm@[j2] == king
                    ==> j1 == j2,
        decreases 64 - i,
    {
        if pm[i] == king {
            match found {
                Some(k) => {
                    proof {
                        assert(pm@[k as int] == king && pm@[i as int] == king && k != i);
                        assert(!one_king(pm@, c));
                    }
                    return false;
                },
                None => {
                    found = Some(i);
                },
            }
        }
        i += 1;
    }
    match found {
        Some(k) => {
            proof {
                assert(pm@[k as int] == king);
            }
            true
        },
        None => false,
    }
}

/// Returns whether `pm` holds exactly one king of each color.
pub fn is_legal_placement(pm: &[Option<Piece>; 64]) -> (r: bool)
    ensures
        r == legal_placement(pm@),
{
    has_one_king(pm, Color::White) && has_one_king(pm, Color::Black)
}

} // verus!
