//! Keeping track of castling rights.

use vstd::prelude::*;
use super::Color;

verus! {

/// The direction of castling.
#[derive(PartialEq, Eq, Debug, Copy, Clone, Structural)]
pub enum CastlingSide {
    Kingside,
    Queenside,
}

/// The castling rights of one side: kingside, then queenside.
#[derive(PartialEq, Eq, Debug, Copy, Clone, Structural)]
pub struct CastlingRights(pub bool, pub bool);

impl CastlingRights {
    /// Creates castling rights from the kingside and queenside rights.
    pub fn new(ks: bool, qs: bool) -> (r: CastlingRights)
        ensures
            r == CastlingRights(ks, qs),
    {
        CastlingRights(ks, qs)
    }

    /// Whether castling on side `cs` is still allowed.
    pub open spec fn allows(self, cs: CastlingSide) -> bool {
        match cs {
            CastlingSide::Kingside => self.0,
            CastlingSide::Queenside => self.1,
        }
    }

    /// Returns `true` if castling on side `cs` is still allowed.
    pub fn can_castle(&self, cs: CastlingSide) -> (r: bool)
        ensures
            r == self.allows(cs),
    {
        match cs {
            CastlingSide::Kingside => self.0,
            CastlingSide::Queenside => self.1,
        }
    }
}

/// The castling state of a chessboard: white's rights, then black's.
#[derive(PartialEq, Eq, Debug, Copy, Clone, Structural)]
pub struct Castling(pub CastlingRights, pub CastlingRights);

impl Default for Castling {
    /// Every castling right granted, as at the start of a game.
    fn default() -> (r: Castling)
        ensures
            r == Castling(CastlingRights(true, true), CastlingRights(true, true)),
    {
        Castling(CastlingRights(true, true), CastlingRights(true, true))
    }
}

impl Castling {
    /// No castling rights.
    pub open spec fn new_spec() -> Castling {
        Castling(CastlingRights(false, false), CastlingRights(false, false))
    }

    /// Every castling right.
    pub open spec fn full_spec() -> Castling {
        Castling(CastlingRights(true, true), CastlingRights(true, true))
    }

    /// The rights of color `c`.
    pub open spec fn rights(self, c: Color) -> CastlingRights {
        match c {
            Color::White => self.0,
            Color::Black => self.1,
        }
    }

    /// Creates a castling state with no rights.
    pub fn new() -> (r: Castling)
        ensures
            r == Castling(CastlingRights(false, false), CastlingRights(false, false)),
    {
        Castling(CastlingRights(false, false), CastlingRights(false, false))
    }

    /// Gets the castling rights of color `c`.
    pub fn get(self, c: Color) -> (r: CastlingRights)
        ensures
            r == self.rights(c),
    {
        match c {
            Color::White => self.0,
            Color::Black => self.1,
        }
    }

    /// Sets the castling rights of color `c` to `cr`.
    pub fn set(&mut self, c: Color, cr: CastlingRights)
        ensures
            final(self).rights(c) == cr,
            final(self).rights(c.other()) == old(self).rights(c.other()),
    {
        match c {
            Color::White => self.0 = cr,
            Color::Black => self.1 = cr,
        }
    }

    /// Removes the right of color `c` to castle on side `cs`.
    pub fn remove(&mut self, c: Color, cs: CastlingSide)
        ensures
            !final(self).rights(c).allows(cs),
            final(self).rights(c).allows(cs.other()) == old(self).rights(c).allows(cs.other()),
            final(self).rights(c.other()) == old(self).rights(c.other()),
    {
        match (c, cs) {
            (Color::White, CastlingSide::Kingside) => self.0.0 = false,
            (Color::White, CastlingSide::Queenside) => self.0.1 = false,
            (Color::Black, CastlingSide::Kingside) => self.1.0 = false,
            (Color::Black, CastlingSide::Queenside) => self.1.1 = false,
        }
    }

    /// Clears the castling rights of both sides.
    pub fn clear(&mut self)
        ensures
            *final(self) == Castling(CastlingRights(false, false), CastlingRights(false, false)),
    {
        self.0 = CastlingRights(false, false);
        self.1 = CastlingRights(false, false);
    }
}

impl CastlingSide {
    /// The other side.
    pub open spec fn other(self) -> CastlingSide {
        match self {
            CastlingSide::Kingside => CastlingSide::Queenside,
            CastlingSide::Queenside => CastlingSide::Kingside,
        }
    }
}

impl Castling {
    /// The notation of the rights: `K`, `Q`, `k`, `q` for those granted, in
    /// that order, or `-` when none is.
    pub open spec fn notation_spec(self) -> Seq<char> {
        let s = (if self.0.0 { seq!['K'] } else { Seq::empty() }) + (if self.0.1 { seq!['Q'] } else { Seq::empty() })
            + (if self.1.0 { seq!['k'] } else { Seq::empty() }) + (if self.1.1 { seq!['q'] } else { Seq::empty() });
        if s.len() == 0 { seq!['-'] } else { s }
    }

    /// Returns the notation of the rights, such as `KQkq` or `-`.
    pub fn notation(&self) -> (r: String)
        ensures
            r@ == self.notation_spec(),
    {
        let mut out = String::new();
        if self.0.0 {
            crate::text::push_char(&mut out, 'K');
        }
        if self.0.1 {
            crate::text::push_char(&mut out, 'Q');
        }
        if self.1.0 {
            crate::text::push_char(&mut out, 'k');
        }
        if self.1.1 {
            crate::text::push_char(&mut out, 'q');
        }
        proof {
            let s = (if self.0.0 { seq!['K'] } else { Seq::empty() }) + (if self.0.1 { seq!['Q'] } else { Seq::empty() })
                + (if self.1.0 { seq!['k'] } else { Seq::empty() }) + (if self.1.1 { seq!['q'] } else { Seq::empty() });
            assert(out@ =~= s);
        }
        if !(self.0.0 || self.0.1 || self.1.0 || self.1.1) {
            crate::text::push_char(&mut out, '-');
            proof {
                assert(out@ =~= seq!['-']);
            }
        }
        out
    }
}

} // verus!
