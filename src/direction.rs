use vstd::prelude::*;

verus! {

/// One of the four headings a snake can have.
#[derive(Clone, Copy, Debug, PartialEq, Eq, Structural)]
pub enum Direction {
    Up,
    Down,
    Left,
    Right,
}

/// The heading that reverses `d`.
pub open spec fn opposite_of(d: Direction) -> Direction {
    match d {
        Direction::Up => Direction::Down,
        Direction::Down => Direction::Up,
        Direction::Left => Direction::Right,
        Direction::Right => Direction::Left,
    }
}

/// Whether `a` and `b` are one of the reversing pairs Up/Down, Down/Up,
/// Left/Right and Right/Left.
pub open spec fn opposite_pair(a: Direction, b: Direction) -> bool {
    ||| a == Direction::Up && b == Direction::Down
    ||| a == Direction::Down && b == Direction::Up
    ||| a == Direction::Left && b == Direction::Right
    ||| a == Direction::Right && b == Direction::Left
}

/// The change of coordinates that one step in direction `d` makes.
pub open spec fn delta_of(d: Direction) -> (int, int) {
    match d {
        Direction::Up => (0, -1),
        Direction::Down => (0, 1),
        Direction::Left => (-1, 0),
        Direction::Right => (1, 0),
    }
}

impl Direction {
    /// Whether `other` is the reverse of `self` (Up/Down, Left/Right).
    pub fn is_opposite(self, other: Direction) -> (r: bool)
        ensures
            r == opposite_pair(self, other),
    {
        self == Direction::Up && other == Direction::Down
            || self == Direction::Down && other == Direction::Up
            || self == Direction::Left && other == Direction::Right
            || self == Direction::Right && other == Direction::Left
    }

    /// The reverse of `self`.
    pub fn opposite(self) -> (r: Direction)
        ensures
            r == opposite_of(self),
    {
        match self {
            Direction::Up => Direction::Down,
            Direction::Down => Direction::Up,
            Direction::Left => Direction::Right,
            Direction::Right => Direction::Left,
        }
    }

    /// The change of coordinates of one step in this direction.
    pub fn delta(self) -> (r: (i32, i32))
        ensures
            (r.0 as int, r.1 as int) == delta_of(self),
    {
        match self {
            Direction::Up => (0, -1),
            Direction::Down => (0, 1),
            Direction::Left => (-1, 0),
            Direction::Right => (1, 0),
        }
    }
}

/// No direction is the reverse of itself, every direction is the reverse
/// of its opposite, and the reverse of a direction is its opposite alone.
pub proof fn lemma_opposite_laws(d: Direction)
    ensures
        !opposite_pair(d, d),
        opposite_pair(d, opposite_of(d)),
        opposite_of(opposite_of(d)) == d,
        forall|e: Direction| opposite_pair(d, e) <==> e == opposite_of(d),
{
}

} // verus!
