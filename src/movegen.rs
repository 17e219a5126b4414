//! Move geometry: directions, moves, and the squares that sliding pieces attack.

pub mod magic;

use vstd::prelude::*;
use crate::bits::{Bitboard, Square};
use crate::position::Role;
use crate::position::castling::CastlingSide;

verus! {

/// A direction on the board, from white's point of view.
#[derive(Debug, Clone, Copy, PartialEq, Eq, Structural)]
pub enum Direction {
    North,
    Northeast,
    East,
    Southeast,
    South,
    Southwest,
    West,
    Northwest,
}

/// A move of a chess game.
#[derive(Debug, Clone, Copy, PartialEq)]
pub enum Move {
    PawnMove {
        from: Square,
        to: Square,
        promotion: Option<Role>,
        en_passant: bool,
        capture: Option<Role>,
    },
    DoublePawnPush { from: Square, to: Square },
    Normal { role: Role, from: Square, to: Square, capture: Option<Role> },
    Castle { castling_side: CastlingSide },
}

/// One step from square `t` in direction `d`, if it stays on the board.
pub open spec fn step(t: int, d: Direction) -> Option<int> {
    let f = t % 8;
    let r = t / 8;
    match d {
        Direction::North => if r < 7 { Some(t + 8) } else { None },
        Direction::Northeast => if r < 7 && f < 7 { Some(t + 9) } else { None },
        Direction::East => if f < 7 { Some(t + 1) } else { None },
        Direction::Southeast => if r > 0 && f < 7 { Some(t - 7) } else { None },
        Direction::South => if r > 0 { Some(t - 8) } else { None },
        Direction::Southwest => if r > 0 && f > 0 { Some(t - 9) } else { None },
        Direction::West => if f > 0 { Some(t - 1) } else { None },
        Direction::Northwest => if r < 7 && f > 0 { Some(t + 7) } else { None },
    }
}

/// The square `k` steps from `s` in direction `d`, if it is on the board.
pub open spec fn ray_square(s: int, d: Direction, k: nat) -> Option<int>
    decreases k,
{
    if k == 0 {
        Some(s)
    } else {
        match ray_square(s, d, (k - 1) as nat) {
            Some(t) => step(t, d),
            None => None,
        }
    }
}

/// No square of `b` lies on the ray from `s` in direction `d` before step `k`.
pub open spec fn clear_before(s: int, d: Direction, b: Set<int>, k: nat) -> bool {
    forall|j: nat|
        1 <= j < k ==> !(#[trigger] ray_square(s, d, j) matches Some(u) && b.contains(u))
}

/// The squares that a slider on `s` reaches in direction `d` when the squares
/// of `b` are occupied: each square of the ray up to and including the first
/// occupied one.
pub open spec fn ray_set(s: int, d: Direction, b: Set<int>) -> Set<int> {
    Set::new(
        |t: int|
            exists|k: nat| k >= 1 && #[trigger] ray_square(s, d, k) == Some(t) && clear_before(s, d, b, k),
    )
}

/// The squares of the ray from `s` in direction `d` whose occupancy can
/// change what a slider reaches: all but the last square before the edge.
pub open spec fn inner_ray_set(s: int, d: Direction) -> Set<int> {
    Set::new(
        |t: int| exists|k: nat| k >= 1 && #[trigger] ray_square(s, d, k) == Some(t) && step(t, d) is Some,
    )
}

/// A rook or a bishop: the pieces whose attacks come from sliding along rays.
pub open spec fn is_slider(r: Role) -> bool {
    r == Role::Rook || r == Role::Bishop
}

/// The squares that a rook (orthogonal rays) or a bishop (diagonal rays) on
/// `s` attacks when the squares of `b` are occupied.
pub open spec fn attacks(r: Role, s: int, b: Set<int>) -> Set<int> {
    if r == Role::Rook {
        ray_set(s, Direction::North, b).union(ray_set(s, Direction::East, b)).union(
            ray_set(s, Direction::South, b),
        ).union(ray_set(s, Direction::West, b))
    } else {
        ray_set(s, Direction::Northeast, b).union(ray_set(s, Direction::Southeast, b)).union(
            ray_set(s, Direction::Southwest, b),
        ).union(ray_set(s, Direction::Northwest, b))
    }
}

/// The relevance mask of a rook or a bishop on `s`: the squares of its rays
/// without the edge squares, whose occupancy never changes its attacks.
pub open spec fn relevance_mask(r: Role, s: int) -> Set<int> {
    if r == Role::Rook {
        inner_ray_set(s, Direction::North).union(inner_ray_set(s, Direction::East)).union(
            inner_ray_set(s, Direction::South),
        ).union(inner_ray_set(s, Direction::West))
    } else {
        inner_ray_set(s, Direction::Northeast).union(inner_ray_set(s, Direction::Southeast)).union(
            inner_ray_set(s, Direction::Southwest),
        ).union(inner_ray_set(s, Direction::Northwest))
    }
}

/// A measure that each step in direction `d` decreases.
spec fn walk_measure(d: Direction, t: int) -> int {
    match d {
        Direction::North | Direction::Northeast | Direction::East | Direction::Northwest => 64 - t,
        _ => t,
    }
}

proof fn lemma_ray_ends(s: int, d: Direction, k: nat, j: nat)
    requires
        ray_square(s, d, k) is None,
        j >= k,
    ensures
        ray_square(s, d, j) is None,
    decreases j - k,
{
    if j > k {
        lemma_ray_ends(s, d, k, (j - 1) as nat);
    }
}

/// One step from square `t` in direction `d`, if it stays on the board.
fn step_exec(t: u32, d: Direction) -> (r: Option<u32>)
    requires
        t < 64,
    ensures
        match r {
            Some(u) => u < 64 && step(t as int, d) == Some(u as int) && walk_measure(d, u as int)
                < walk_measure(d, t as int),
            None => step(t as int, d) is None,
        },
{
    let f = t % 8;
    let r = t / 8;
    match d {
        Direction::North => if r < 7 { Some(t + 8) } else { None },
        Direction::Northeast => if r < 7 && f < 7 { Some(t + 9) } else { None },
        Direction::East => if f < 7 { Some(t + 1) } else { None },
        Direction::Southeast => if r > 0 && f < 7 { Some(t - 7) } else { None },
        Direction::South => if r > 0 { Some(t - 8) } else { None },
        Direction::Southwest => if r > 0 && f > 0 { Some(t - 9) } else { None },
        Direction::West => if f > 0 { Some(t - 1) } else { None },
        Direction::Northwest => if r < 7 && f > 0 { Some(t + 7) } else { None },
    }
}

/// The squares that a slider on `s` reaches in direction `d` when the squares
/// of `blockers` are occupied.
fn ray_attacks(s: Square, d: Direction, blockers: Bitboard) -> (r: Bitboard)
    requires
        s.valid(),
    ensures
        r@ == ray_set(s.idx(), d, blockers@),
{
    let ghost si = s.idx();
    let ghost b = blockers@;
    let mut result = Bitboard::empty();
    let mut cur: u32 = s.0;
    let ghost mut k: nat = 0;
    loop
        invariant_except_break
            cur < 64,
            b == blockers@,
            si == s.idx(),
            ray_square(si, d, k) == Some(cur as int),
            forall|j: nat| 1 <= j <= k ==> !(#[trigger] ray_square(si, d, j) matches Some(u) && b.contains(u)),
            result@ == Set::new(|t: int| exists|j: nat| 1 <= j <= k && #[trigger] ray_square(si, d, j) == Some(t)),
        ensures
            result@ == ray_set(si, d, b),
        decreases walk_measure(d, cur as int),
    {
        match step_exec(cur, d) {
            None => {
                proof {
                    assert(ray_square(si, d, k + 1) is None);
                    assert forall|t: int| #[trigger] ray_set(si, d, b).contains(t) implies result@.contains(t) by {
                        let kk = choose|kk: nat| kk >= 1 && #[trigger] ray_square(si, d, kk) == Some(t) && clear_before(si, d, b, kk);
                        if kk > k {
                            lemma_ray_ends(si, d, k + 1, kk);
                        }
                    }
                    assert forall|t: int| result@.contains(t) implies #[trigger] ray_set(si, d, b).contains(t) by {
                        let j = choose|j: nat| 1 <= j <= k && #[trigger] ray_square(si, d, j) == Some(t);
                        assert(clear_before(si, d, b, j));
                    }
                    assert(result@ =~= ray_set(si, d, b));
                }
                break ;
            },
            Some(t) => {
                let ghost prev = result@;
                result.insert(Square(t));
                proof {
                    assert(ray_square(si, d, k + 1) == Some(t as int));
                    assert(result@ =~= Set::new(|u: int| exists|j: nat| 1 <= j <= k + 1 && #[trigger] ray_square(si, d, j) == Some(u))) by {
                        assert forall|u: int| #[trigger] result@.contains(u) implies exists|j: nat| 1 <= j <= k + 1 && #[trigger] ray_square(si, d, j) == Some(u) by {
                            if u == t as int {
                                assert(ray_square(si, d, k + 1) == Some(u));
                            }
                        }
                    }
                }
                let blocked = blockers.contains(Square(t));
                proof {
                    assert(blocked == b.contains(t as int));
                }
                if blocked {
                    proof {
                        assert forall|u: int| #[trigger] ray_set(si, d, b).contains(u) implies result@.contains(u) by {
                            let kk = choose|kk: nat| kk >= 1 && #[trigger] ray_square(si, d, kk) == Some(u) && clear_before(si, d, b, kk);
                            let j1: nat = (k + 1) as nat;
                            assert(ray_square(si, d, j1) == Some(t as int));
                            assert(b.contains(t as int));
                            if kk > j1 {
                                assert(!(ray_square(si, d, j1) matches Some(w) && b.contains(w)));
                            }
                        }
                        assert forall|u: int| result@.contains(u) implies #[trigger] ray_set(si, d, b).contains(u) by {
                            let j = choose|j: nat| 1 <= j <= k + 1 && #[trigger] ray_square(si, d, j) == Some(u);
                            assert(clear_before(si, d, b, j));
                        }
                        assert(result@ =~= ray_set(si, d, b));
                    }
                    break ;
                }
                cur = t;
                proof {
                    k = k + 1;
                    assert(!b.contains(t as int));
                    assert(ray_square(si, d, k) == Some(t as int));
                }
            },
        }
    }
    result
}

/// The squares of the ray from `s` in direction `d` without its edge square.
fn inner_ray(s: Square, d: Direction) -> (r: Bitboard)
    requires
        s.valid(),
    ensures
        r@ == inner_ray_set(s.idx(), d),
{
    let ghost si = s.idx();
    let mut result = Bitboard::empty();
    let mut cur: u32 = s.0;
    let ghost mut k: nat = 0;
    loop
        invariant_except_break
            cur < 64,
            si == s.idx(),
            ray_square(si, d, k) == Some(cur as int),
            result@ == Set::new(
                |t: int| exists|j: nat| 1 <= j <= k && #[trigger] ray_square(si, d, j) == Some(t) && step(t, d) is Some,
            ),
        ensures
            result@ == inner_ray_set(si, d),
        decreases walk_measure(d, cur as int),
    {
        match step_exec(cur, d) {
            None => {
                proof {
                    assert(ray_square(si, d, k + 1) is None);
                    assert forall|t: int| #[trigger] inner_ray_set(si, d).contains(t) implies result@.contains(t) by {
                        let kk = choose|kk: nat| kk >= 1 && #[trigger] ray_square(si, d, kk) == Some(t) && step(t, d) is Some;
                        if kk > k {
                            lemma_ray_ends(si, d, k + 1, kk);
                        }
                    }
                    assert(result@ =~= inner_ray_set(si, d));
                }
                break ;
            },
            Some(t) => {
                let ghost prev = result@;
                let next = step_exec(t, d);
                if next.is_some() {
                    result.insert(Square(t));
                }
                proof {
                    let j1: nat = (k + 1) as nat;
                    assert(ray_square(si, d, j1) == Some(t as int));
                    assert(result@ =~= Set::new(
                        |u: int| exists|j: nat| 1 <= j <= k + 1 && #[trigger] ray_square(si, d, j) == Some(u) && step(u, d) is Some,
                    )) by {
                        assert forall|u: int| #[trigger] result@.contains(u) implies exists|j: nat| 1 <= j <= k + 1 && #[trigger] ray_square(si, d, j) == Some(u) && step(u, d) is Some by {
                            if u == t as int {
                                assert(ray_square(si, d, j1) == Some(u));
                            }
                        }
                    }
                }
                cur = t;
                proof {
                    k = k + 1;
                }
            },
        }
    }
    result
}

/// The squares that a rook on `s` attacks when the squares of `blockers` are occupied.
pub fn generate_rook_moves(s: Square, blockers: Bitboard) -> (r: Bitboard)
    requires
        s.valid(),
    ensures
        r@ == attacks(Role::Rook, s.idx(), blockers@),
{
    let n = ray_attacks(s, Direction::North, blockers);
    let e = ray_attacks(s, Direction::East, blockers);
    let so = ray_attacks(s, Direction::South, blockers);
    let w = ray_attacks(s, Direction::West, blockers);
    n.union(e).union(so).union(w)
}

/// The squares that a bishop on `s` attacks when the squares of `blockers` are occupied.
pub fn generate_bishop_moves(s: Square, blockers: Bitboard) -> (r: Bitboard)
    requires
        s.valid(),
    ensures
        r@ == attacks(Role::Bishop, s.idx(), blockers@),
{
    let ne = ray_attacks(s, Direction::Northeast, blockers);
    let se = ray_attacks(s, Direction::Southeast, blockers);
    let sw = ray_attacks(s, Direction::Southwest, blockers);
    let nw = ray_attacks(s, Direction::Northwest, blockers);
    ne.union(se).union(sw).union(nw)
}

/// The squares that a rook or a bishop on `s` attacks when the squares of
/// `blockers` are occupied.
pub fn slider_moves(r: Role, s: Square, blockers: Bitboard) -> (b: Bitboard)
    requires
        is_slider(r),
        s.valid(),
    ensures
        b@ == attacks(r, s.idx(), blockers@),
{
    match r {
        Role::Rook => generate_rook_moves(s, blockers),
        _ => generate_bishop_moves(s, blockers),
    }
}

/// The relevance mask of a rook or a bishop on `s`.
pub fn find_mask(r: Role, s: Square) -> (b: Bitboard)
    requires
        is_slider(r),
        s.valid(),
    ensures
        b@ == relevance_mask(r, s.idx()),
{
    match r {
        Role::Rook => {
            let n = inner_ray(s, Direction::North);
            let e = inner_ray(s, Direction::East);
            let so = inner_ray(s, Direction::South);
            let w = inner_ray(s, Direction::West);
            n.union(e).union(so).union(w)
        },
        _ => {
            let ne = inner_ray(s, Direction::Northeast);
            let se = inner_ray(s, Direction::Southeast);
            let sw = inner_ray(s, Direction::Southwest);
            let nw = inner_ray(s, Direction::Northwest);
            ne.union(se).union(sw).union(nw)
        },
    }
}

proof fn lemma_ray_continues(s: int, d: Direction, j: nat, k: nat)
    requires
        ray_square(s, d, k) is Some,
        j <= k,
    ensures
        ray_square(s, d, j) is Some,
{
    if ray_square(s, d, j) is None {
        lemma_ray_ends(s, d, j, k);
    }
}

proof fn lemma_ray_relevant(s: int, d: Direction, b: Set<int>, m: Set<int>)
    requires
        inner_ray_set(s, d).subset_of(m),
    ensures
        ray_set(s, d, b) == ray_set(s, d, b.intersect(m)),
{
    assert forall|k: nat| #[trigger] ray_square(s, d, k) is Some implies clear_before(s, d, b, k)
        == clear_before(s, d, b.intersect(m), k) by {
        assert forall|j: nat| 1 <= j < k implies (#[trigger] ray_square(s, d, j) matches Some(u)
            && b.contains(u)) == (ray_square(s, d, j) matches Some(u) && b.intersect(m).contains(u)) by {
            lemma_ray_continues(s, d, j + 1, k);
            lemma_ray_continues(s, d, j, k);
            let u = ray_square(s, d, j)->0;
            assert(ray_square(s, d, (j + 1) as nat) == step(u, d));
            assert(inner_ray_set(s, d).contains(u));
        }
    }
    assert forall|t: int| ray_set(s, d, b).contains(t) == ray_set(s, d, b.intersect(m)).contains(t) by {
        if ray_set(s, d, b).contains(t) {
            let k = choose|k: nat| k >= 1 && #[trigger] ray_square(s, d, k) == Some(t) && clear_before(s, d, b, k);
        }
        if ray_set(s, d, b.intersect(m)).contains(t) {
            let k = choose|k: nat| k >= 1 && #[trigger] ray_square(s, d, k) == Some(t) && clear_before(s, d, b.intersect(m), k);
        }
    }
    assert(ray_set(s, d, b) =~= ray_set(s, d, b.intersect(m)));
}

/// Only the squares of the relevance mask matter: a rook or a bishop attacks
/// the same squares whatever occupies the squares outside its mask.
pub proof fn lemma_attacks_relevant(r: Role, s: int, b: Set<int>)
    requires
        is_slider(r),
    ensures
        attacks(r, s, b) == attacks(r, s, b.intersect(relevance_mask(r, s))),
{
    let m = relevance_mask(r, s);
    if r == Role::Rook {
        lemma_ray_relevant(s, Direction::North, b, m);
        lemma_ray_relevant(s, Direction::East, b, m);
        lemma_ray_relevant(s, Direction::South, b, m);
        lemma_ray_relevant(s, Direction::West, b, m);
    } else {
        lemma_ray_relevant(s, Direction::Northeast, b, m);
        lemma_ray_relevant(s, Direction::Southeast, b, m);
        lemma_ray_relevant(s, Direction::Southwest, b, m);
        lemma_ray_relevant(s, Direction::Northwest, b, m);
    }
}

} // verus!
