use vstd::arithmetic::div_mod::{lemma_fundamental_div_mod, lemma_fundamental_div_mod_converse};
use vstd::prelude::*;

verus! {

/// Position on the world map. The upper left corner is (0, 0).
#[derive(Clone, Copy, Debug, PartialEq, Eq, Structural, PartialOrd, Ord, Hash, Default)]
pub struct Position {
    /// Row, comparable to a Y-axis value.
    pub row: u16,
    /// Column, comparable to an X-axis value.
    pub col: u16,
}

/// Short hand for a position.
pub fn pos(row: u16, col: u16) -> (r: Position)
    ensures
        r == (Position { row, col }),
{
    Position { row, col }
}

/// A movement direction, or no movement at all.
#[derive(Clone, Copy, Debug, PartialEq, Eq, Structural, PartialOrd, Ord, Hash)]
pub enum Direction {
    North,
    West,
    South,
    East,
    NoDirection,
}

/// The direction pointing the opposite way.
pub open spec fn opposite(d: Direction) -> Direction {
    match d {
        Direction::North => Direction::South,
        Direction::South => Direction::North,
        Direction::West => Direction::East,
        Direction::East => Direction::West,
        Direction::NoDirection => Direction::NoDirection,
    }
}

impl Direction {
    /// Reverse the direction: East becomes West, North becomes South and
    /// vice versa; no movement stays no movement.
    pub fn reverse(self) -> (r: Direction)
        ensures
            r == opposite(self),
    {
        match self {
            Direction::North => Direction::South,
            Direction::South => Direction::North,
            Direction::West => Direction::East,
            Direction::East => Direction::West,
            Direction::NoDirection => Direction::NoDirection,
        }
    }
}

/// An order: an ant at a position, moving in a direction.
#[derive(Clone, Copy, Debug, PartialEq, Eq, Structural, PartialOrd, Ord, Hash)]
pub struct Order {
    pub pos: Position,
    pub dir: Direction,
}

pub type Orders = Vec<Order>;

/// Where an order at `p` moving in `d` ends up on a torus of size `size`.
pub open spec fn target_of(p: Position, d: Direction, size: Position) -> Position {
    match d {
        Direction::North => Position {
            row: ((p.row + size.row - 1) % (size.row as int)) as u16,
            col: p.col,
        },
        Direction::South => Position { row: ((p.row + 1) % (size.row as int)) as u16, col: p.col },
        Direction::West => Position {
            row: p.row,
            col: ((p.col + size.col - 1) % (size.col as int)) as u16,
        },
        Direction::East => Position { row: p.row, col: ((p.col + 1) % (size.col as int)) as u16 },
        Direction::NoDirection => p,
    }
}

/// The order `o` seen from its destination: placed at its target and
/// pointing the opposite way.
pub open spec fn reversed(o: Order, size: Position) -> Order {
    Order { pos: target_of(o.pos, o.dir, size), dir: opposite(o.dir) }
}

/// A size usable as wraparound bounds: both components are positive.
pub open spec fn valid_size(size: Position) -> bool {
    size.row > 0 && size.col > 0
}

/// `p` lies inside the box `[0, size.row) x [0, size.col)`.
pub open spec fn within(p: Position, size: Position) -> bool {
    p.row < size.row && p.col < size.col
}

/// `v mod size`, the remainder that is never negative.
fn wrap_coord(v: i64, size: u16) -> (r: u16)
    requires
        size > 0,
    ensures
        r as int == (v as int) % (size as int),
{
    let m = size as i64;
    if v >= 0 {
        (v % m) as u16
    } else {
        // -v == k1 + 1 with k1 >= 0, so v == (-(k1 / m) - 1) * m + (m - 1 - k1 % m)
        let k1 = -(v + 1);
        let q = k1 % m;
        proof {
            lemma_fundamental_div_mod(k1 as int, m as int);
            let kd = (k1 as int) / (m as int);
            assert((-kd - 1) * m == -(m * kd) - m) by (nonlinear_arith);
            lemma_fundamental_div_mod_converse(
                v as int,
                m as int,
                -((k1 as int) / (m as int)) - 1,
                m - 1 - q,
            );
        }
        (m - 1 - q) as u16
    }
}

impl Position {
    /// Order moving this position north.
    pub fn north(&self) -> (r: Order)
        ensures
            r == (Order { pos: *self, dir: Direction::North }),
    {
        Order { pos: *self, dir: Direction::North }
    }

    /// Order moving this position south.
    pub fn south(&self) -> (r: Order)
        ensures
            r == (Order { pos: *self, dir: Direction::South }),
    {
        Order { pos: *self, dir: Direction::South }
    }

    /// Order moving this position west.
    pub fn west(&self) -> (r: Order)
        ensures
            r == (Order { pos: *self, dir: Direction::West }),
    {
        Order { pos: *self, dir: Direction::West }
    }

    /// Order moving this position east.
    pub fn east(&self) -> (r: Order)
        ensures
            r == (Order { pos: *self, dir: Direction::East }),
    {
        Order { pos: *self, dir: Direction::East }
    }

    /// Order keeping this position stationary.
    pub fn pause(&self) -> (r: Order)
        ensures
            r == (Order { pos: *self, dir: Direction::NoDirection }),
    {
        Order { pos: *self, dir: Direction::NoDirection }
    }

    /// Order moving this position in `dir`.
    pub fn order(&self, dir: Direction) -> (r: Order)
        ensures
            r == (Order { pos: *self, dir }),
    {
        Order { pos: *self, dir }
    }

    /// Use this position as the size of a torus and wrap the coordinates
    /// `(row, col)` into it: the result is `(row mod rows, col mod cols)`,
    /// the mathematical (never negative) remainder.
    pub fn as_size_for_pos(&self, row: i64, col: i64) -> (r: Position)
        requires
            valid_size(*self),
        ensures
            r.row as int == (row as int) % (self.row as int),
            r.col as int == (col as int) % (self.col as int),
    {
        Position { row: wrap_coord(row, self.row), col: wrap_coord(col, self.col) }
    }

    /// Use this position as the size of a torus and wrap `p` into it.
    pub fn as_size_for(&self, p: Position) -> (r: Position)
        requires
            valid_size(*self),
        ensures
            r.row == p.row % self.row,
            r.col == p.col % self.col,
    {
        self.as_size_for_pos(p.row as i64, p.col as i64)
    }
}

impl Order {
    /// The position this order leads to, wrapping around the edges of a
    /// torus of size `scope_size`.
    pub fn target_pos(&self, scope_size: &Position) -> (r: Position)
        requires
            valid_size(*scope_size),
        ensures
            r == target_of(self.pos, self.dir, *scope_size),
    {
        let row_max = scope_size.row as u32;
        let col_max = scope_size.col as u32;
        let row = self.pos.row as u32;
        let col = self.pos.col as u32;
        match self.dir {
            Direction::South => Position { row: ((row + 1) % row_max) as u16, col: self.pos.col },
            Direction::North => Position {
                row: ((row + row_max - 1) % row_max) as u16,
                col: self.pos.col,
            },
            Direction::West => Position {
                row: self.pos.row,
                col: ((col + col_max - 1) % col_max) as u16,
            },
            Direction::East => Position { row: self.pos.row, col: ((col + 1) % col_max) as u16 },
            Direction::NoDirection => self.pos,
        }
    }

    /// The same move seen from its destination: the order at
    /// `target_pos(scope_size)` pointing the opposite way.
    pub fn reverse(&self, scope_size: &Position) -> (r: Order)
        requires
            valid_size(*scope_size),
        ensures
            r == reversed(*self, *scope_size),
    {
        let target = self.target_pos(scope_size);
        target.order(self.dir.reverse())
    }
}

/// Stepping one cell up (down) from inside `[0, bound)` stays inside, and
/// stepping back down (up) returns to the start.
proof fn lemma_step_round_trip(v: int, bound: int)
    requires
        0 <= v < bound,
    ensures
        0 <= (v + bound - 1) % bound < bound,
        0 <= (v + 1) % bound < bound,
        ((v + bound - 1) % bound + 1) % bound == v,
        ((v + 1) % bound + bound - 1) % bound == v,
{
    if v == 0 {
        lemma_fundamental_div_mod_converse(v + bound - 1, bound, 0, bound - 1);
        lemma_fundamental_div_mod_converse(bound, bound, 1, 0);
    } else {
        lemma_fundamental_div_mod_converse(v + bound - 1, bound, 1, v - 1);
        lemma_fundamental_div_mod_converse(v, bound, 0, v);
    }
    if v == bound - 1 {
        lemma_fundamental_div_mod_converse(v + 1, bound, 1, 0);
        lemma_fundamental_div_mod_converse(bound - 1, bound, 0, bound - 1);
    } else {
        lemma_fundamental_div_mod_converse(v + 1, bound, 0, v + 1);
        lemma_fundamental_div_mod_converse(v + bound, bound, 1, v);
    }
}

/// Wraparound keeps positions on the grid: for a position inside the
/// bounds `size`, the target of an order in any direction is inside the
/// bounds too, and reversing the order twice gives back the same position
/// and direction.
pub proof fn lemma_wraparound(o: Order, size: Position)
    requires
        valid_size(size),
        within(o.pos, size),
    ensures
        within(target_of(o.pos, o.dir, size), size),
        reversed(reversed(o, size), size) == o,
{
    lemma_step_round_trip(o.pos.row as int, size.row as int);
    lemma_step_round_trip(o.pos.col as int, size.col as int);
}

} // verus!
