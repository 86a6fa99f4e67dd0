use vstd::prelude::*;
use crate::direction::Direction;

verus! {

/// The coordinates of one grid cell. Columns count eastwards, rows count southwards.
#[derive(Clone, Copy, Debug, PartialEq, Eq, Structural)]
pub struct Position {
    pub column: usize,
    pub row: usize,
}

impl Position {
    /// Whether the adjacent position in direction `dir` has representable coordinates.
    pub open spec fn can_move(self, dir: Direction) -> bool {
        match dir {
            Direction::South => self.row < usize::MAX,
            Direction::East => self.column < usize::MAX,
            Direction::North => 0 < self.row,
            Direction::West => 0 < self.column,
        }
    }

    /// The adjacent position in direction `dir`: south is one row further, north one row
    /// back, east one column further, west one column back.
    pub open spec fn neighbor(self, dir: Direction) -> Position
        recommends
            self.can_move(dir),
    {
        match dir {
            Direction::South => Position { column: self.column, row: (self.row + 1) as usize },
            Direction::East => Position { column: (self.column + 1) as usize, row: self.row },
            Direction::North => Position { column: self.column, row: (self.row - 1) as usize },
            Direction::West => Position { column: (self.column - 1) as usize, row: self.row },
        }
    }

    /// Whether `self` comes before `other` when the grid is scanned column by column,
    /// each column from its first row down.
    pub open spec fn scanned_before(self, other: Position) -> bool {
        self.column < other.column || (self.column == other.column && self.row < other.row)
    }
}

} // verus!
