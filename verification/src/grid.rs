use vstd::prelude::*;

verus! {

/// Grid coordinate pair. Equality is by coordinate value.
#[derive(Clone, Copy, PartialEq, Eq, Structural, Debug, Hash)]
pub struct Position {
    pub x: i32,
    pub y: i32,
}

/// A coordinate shifted into the non-negative range, so that a pair of
/// coordinates can be packed into one `u64` key.
pub open spec fn coord_key(c: i32) -> int {
    c as int + 0x8000_0000
}

/// Injective packing of a position into a `u64`, used as the key of the
/// sparse position index.
pub open spec fn pos_key(p: Position) -> u64 {
    (coord_key(p.x) * 0x1_0000_0000 + coord_key(p.y)) as u64
}

proof fn lemma_pos_key_bounds(p: Position)
    ensures
        0 <= coord_key(p.x) * 0x1_0000_0000 + coord_key(p.y) < 0x1_0000_0000_0000_0000,
        pos_key(p) == coord_key(p.x) * 0x1_0000_0000 + coord_key(p.y),
{
    assert(0 <= coord_key(p.x) < 0x1_0000_0000);
    assert(0 <= coord_key(p.y) < 0x1_0000_0000);
}

/// Two distinct positions always get distinct keys.
pub proof fn lemma_pos_key_injective(a: Position, b: Position)
    requires
        pos_key(a) == pos_key(b),
    ensures
        a == b,
{
    lemma_pos_key_bounds(a);
    lemma_pos_key_bounds(b);
    let ax = coord_key(a.x);
    let ay = coord_key(a.y);
    let bx = coord_key(b.x);
    let by = coord_key(b.y);
    assert(ax * 0x1_0000_0000 + ay == bx * 0x1_0000_0000 + by);
    assert(ax == bx && ay == by) by (nonlinear_arith)
        requires
            0 <= ax < 0x1_0000_0000,
            0 <= ay < 0x1_0000_0000,
            0 <= bx < 0x1_0000_0000,
            0 <= by < 0x1_0000_0000,
            ax * 0x1_0000_0000 + ay == bx * 0x1_0000_0000 + by,
    ;
}

impl Position {
    /// Executable form of `pos_key`.
    pub fn key(&self) -> (k: u64)
        ensures
            k == pos_key(*self),
    {
        proof {
            lemma_pos_key_bounds(*self);
        }
        let xk: u64 = (self.x as i64 + 0x8000_0000) as u64;
        let yk: u64 = (self.y as i64 + 0x8000_0000) as u64;
        xk * 0x1_0000_0000 + yk
    }
}

#[derive(Clone, Copy, PartialEq, Eq, Structural, Debug)]
pub enum Direction {
    North,
    South,
    East,
    West,
    Still,
}

/// The direction that undoes one step of `d`.
pub open spec fn invert_spec(d: Direction) -> Direction {
    match d {
        Direction::North => Direction::South,
        Direction::South => Direction::North,
        Direction::East => Direction::West,
        Direction::West => Direction::East,
        Direction::Still => Direction::Still,
    }
}

impl Direction {
    pub fn invert_direction(&self) -> (r: Direction)
        ensures
            r == invert_spec(*self),
    {
        match self {
            Direction::North => Direction::South,
            Direction::South => Direction::North,
            Direction::East => Direction::West,
            Direction::West => Direction::East,
            Direction::Still => Direction::Still,
        }
    }
}

/// The cell one step from `p` in direction `d`, with saturation left out:
/// callers keep coordinates away from the extremes.
pub open spec fn offset_spec(p: Position, d: Direction) -> Position {
    match d {
        Direction::North => Position { x: p.x, y: (p.y - 1) as i32 },
        Direction::South => Position { x: p.x, y: (p.y + 1) as i32 },
        Direction::East => Position { x: (p.x + 1) as i32, y: p.y },
        Direction::West => Position { x: (p.x - 1) as i32, y: p.y },
        Direction::Still => p,
    }
}

impl Position {
    pub fn directional_offset(&self, d: Direction) -> (r: Position)
        requires
            d == Direction::North ==> self.y > i32::MIN,
            d == Direction::South ==> self.y < i32::MAX,
            d == Direction::West ==> self.x > i32::MIN,
            d == Direction::East ==> self.x < i32::MAX,
        ensures
            r == offset_spec(*self, d),
    {
        match d {
            Direction::North => Position { x: self.x, y: self.y - 1 },
            Direction::South => Position { x: self.x, y: self.y + 1 },
            Direction::East => Position { x: self.x + 1, y: self.y },
            Direction::West => Position { x: self.x - 1, y: self.y },
            Direction::Still => Position { x: self.x, y: self.y },
        }
    }
}

/// A ship-like entity: identifier, position, and its carried quantity.
#[derive(Clone, Copy, PartialEq, Eq, Structural, Debug)]
pub struct Ship {
    pub id: u64,
    pub position: Position,
    pub halite: u32,
}

/// One per-tick order for a ship.
#[derive(Clone, Copy, PartialEq, Eq, Structural, Debug)]
pub struct Command {
    pub ship_id: u64,
    pub direction: Direction,
}

impl Ship {
    pub fn move_ship(&self, d: Direction) -> (c: Command)
        ensures
            c == (Command { ship_id: self.id, direction: d }),
    {
        Command { ship_id: self.id, direction: d }
    }

    pub fn stay_still(&self) -> (c: Command)
        ensures
            c == (Command { ship_id: self.id, direction: Direction::Still }),
    {
        Command { ship_id: self.id, direction: Direction::Still }
    }
}

} // verus!
