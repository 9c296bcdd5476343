use vstd::prelude::*;

use crate::direction::Direction;

verus! {

/// A cell of the board, as (column, row).
pub type Tile = (i32, i32);

/// The widest board a level may describe.
pub const MAX_WIDTH: u32 = 50;

/// The tallest board a level may describe.
pub const MAX_HEIGHT: u32 = 40;

/// The static geometry of one level.
pub struct Level {
    pub id: u32,
    pub width: u32,
    pub height: u32,
    pub start_tile: Tile,
    pub start_direction: Direction,
    pub barriers: Vec<Tile>,
}

/// What is wrong with a level description.
#[derive(Clone, Copy, Debug, PartialEq, Eq, Structural)]
pub enum LevelErrorKind {
    /// A row differs in width from the first row.
    NotRectangular,
    /// A row is wider than `MAX_WIDTH`.
    TooWide,
    /// A byte that stands for no kind of cell.
    InvalidCharacter(u8),
    /// More rows than `MAX_HEIGHT`.
    TooTall,
    /// No start marker.
    NoStart,
    /// More than one start marker.
    MultipleStarts,
}

/// A level description that could not be loaded, with the level's id.
#[derive(Clone, Copy, Debug, PartialEq, Eq, Structural)]
pub struct LevelError {
    pub id: u32,
    pub kind: LevelErrorKind,
}

/// Whether `t` lies on a board of `width` columns and `height` rows.
pub open spec fn on_board(t: Tile, width: int, height: int) -> bool {
    0 <= t.0 < width && 0 <= t.1 < height
}

/// One coordinate brought back onto `0..size` after a step of at most one
/// cell past either edge.
pub open spec fn wrap_coord(c: int, size: int) -> int {
    if c < 0 {
        size - 1
    } else if c >= size {
        0
    } else {
        c
    }
}

impl Level {
    /// The dimensions lie within the limits and the start tile on the board.
    pub open spec fn wf(&self) -> bool {
        &&& 1 <= self.width <= MAX_WIDTH
        &&& 1 <= self.height <= MAX_HEIGHT
        &&& self.contains(self.start_tile)
    }

    /// Whether `t` lies on this level's board.
    pub open spec fn contains(&self, t: Tile) -> bool {
        on_board(t, self.width as int, self.height as int)
    }

    /// Whether `t` holds a barrier.
    pub open spec fn is_barrier(&self, t: Tile) -> bool {
        self.barriers@.contains(t)
    }

    /// The tile that `t` wraps to on this level's board.
    pub open spec fn wrap(&self, t: Tile) -> Tile {
        (
            wrap_coord(t.0 as int, self.width as int) as i32,
            wrap_coord(t.1 as int, self.height as int) as i32,
        )
    }

    /// Brings a tile that stepped off one edge back in at the opposite edge;
    /// each axis is handled on its own.
    pub fn wraparound(&self, tile: Tile) -> (r: Tile)
        requires
            self.width <= i32::MAX,
            self.height <= i32::MAX,
        ensures
            r == self.wrap(tile),
    {
        let (x, y) = tile;
        let new_x = if x < 0 {
            self.width as i32 - 1
        } else if x >= self.width as i32 {
            0
        } else {
            x
        };
        let new_y = if y < 0 {
            self.height as i32 - 1
        } else if y >= self.height as i32 {
            0
        } else {
            y
        };
        (new_x, new_y)
    }

    /// Whether `t` holds a barrier.
    pub fn has_barrier(&self, t: Tile) -> (r: bool)
        ensures
            r == self.is_barrier(t),
    {
        let mut i: usize = 0;
        while i < self.barriers.len()
            invariant
                i <= self.barriers@.len(),
                forall|j: int| 0 <= j < i ==> self.barriers@[j] != t,
            decreases self.barriers@.len() - i,
        {
            let b = self.barriers[i];
            if b.0 == t.0 && b.1 == t.1 {
                return true;
            }
            i += 1;
        }
        false
    }
}

/// Wrapping a tile that is at most one cell off the board of a valid level
/// lands on the board.
pub proof fn lemma_wrap_on_board(level: &Level, t: Tile)
    requires
        level.width >= 1,
        level.height >= 1,
        level.width <= i32::MAX,
        level.height <= i32::MAX,
        -1 <= t.0 <= level.width,
        -1 <= t.1 <= level.height,
    ensures
        level.contains(level.wrap(t)),
{
}

} // verus!
