use vstd::prelude::*;
use crate::direction::Direction;
use crate::error::MazeError;

verus! {

/// What one grid cell holds.
#[derive(Clone, Copy, Debug, PartialEq, Eq, Structural)]
pub enum Cell {
    /// The placeholder for no cell: a position outside the grid reads as this, and no
    /// character of a maze text stands for it.
    Invalid,
    Start,
    Wall,
    Empty,
    /// The terminal cell: the run ends when the agent lands here.
    Suicide,
    /// A block that only a speed-modified agent can enter, and that it destroys.
    Obstacle,
    /// Forces the agent's facing direction.
    Dir(Direction),
    /// Reverses the turn priority.
    Invertor,
    /// Toggles the speed modifier.
    Beer,
    Teleporter,
}

impl Cell {
    /// The cell that a character of the maze text stands for, if any.
    pub open spec fn of_char(c: char) -> Option<Cell> {
        if c == '@' {
            Some(Cell::Start)
        } else if c == '#' {
            Some(Cell::Wall)
        } else if c == ' ' {
            Some(Cell::Empty)
        } else if c == '$' {
            Some(Cell::Suicide)
        } else if c == 'X' {
            Some(Cell::Obstacle)
        } else if c == 'S' {
            Some(Cell::Dir(Direction::South))
        } else if c == 'N' {
            Some(Cell::Dir(Direction::North))
        } else if c == 'E' {
            Some(Cell::Dir(Direction::East))
        } else if c == 'W' {
            Some(Cell::Dir(Direction::West))
        } else if c == 'I' {
            Some(Cell::Invertor)
        } else if c == 'B' {
            Some(Cell::Beer)
        } else if c == 'T' {
            Some(Cell::Teleporter)
        } else {
            None
        }
    }

    /// Reads one character of the maze text.
    pub fn new(c: char) -> (parsed: Result<Cell, MazeError>)
        ensures
            parsed == match Cell::of_char(c) {
                Some(cell) => Ok::<Cell, MazeError>(cell),
                None => Err(MazeError::UnsupportedChar(c)),
            },
    {
        match c {
            '@' => Ok(Cell::Start),
            '#' => Ok(Cell::Wall),
            ' ' => Ok(Cell::Empty),
            '$' => Ok(Cell::Suicide),
            'X' => Ok(Cell::Obstacle),
            'S' => Ok(Cell::Dir(Direction::South)),
            'N' => Ok(Cell::Dir(Direction::North)),
            'E' => Ok(Cell::Dir(Direction::East)),
            'W' => Ok(Cell::Dir(Direction::West)),
            'I' => Ok(Cell::Invertor),
            'B' => Ok(Cell::Beer),
            'T' => Ok(Cell::Teleporter),
            _ => Err(MazeError::UnsupportedChar(c)),
        }
    }

    /// Whether the cell refuses entry to an agent: a wall always does, an obstacle does
    /// unless the agent is speed-modified, and nothing else does.
    pub open spec fn blocks(self, speed_modified: bool) -> bool {
        self == Cell::Wall || (self == Cell::Obstacle && !speed_modified)
    }

    /// Decides whether the cell refuses entry to an agent.
    pub fn is_blocking(&self, speed_modified: bool) -> (blocked: bool)
        ensures
            blocked == self.blocks(speed_modified),
    {
        match self {
            Cell::Wall => true,
            Cell::Obstacle => !speed_modified,
            _ => false,
        }
    }
}

} // verus!
