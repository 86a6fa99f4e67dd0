use vstd::prelude::*;

verus! {

/// A compass direction on the grid.
#[derive(Clone, Copy, Debug, PartialEq, Eq, Hash, Structural)]
pub enum Direction {
    North,
    South,
    East,
    West,
}

impl Direction {
    /// The order in which directions are tried once the way ahead is blocked: south, east,
    /// north, west, or the reverse of that when the priority is inverted.
    pub open spec fn priority(inverted: bool) -> Seq<Direction> {
        if inverted {
            seq![Direction::West, Direction::North, Direction::East, Direction::South]
        } else {
            seq![Direction::South, Direction::East, Direction::North, Direction::West]
        }
    }

    /// The index of the direction in `priority(inverted)`.
    pub open spec fn rank(self, inverted: bool) -> int {
        let normal: int = match self {
            Direction::South => 0,
            Direction::East => 1,
            Direction::North => 2,
            Direction::West => 3,
        };
        if inverted {
            3 - normal
        } else {
            normal
        }
    }

    /// The upper-case name of the direction, as a sequence of characters.
    pub open spec fn label_spec(self) -> Seq<char> {
        match self {
            Direction::South => seq!['S', 'O', 'U', 'T', 'H'],
            Direction::East => seq!['E', 'A', 'S', 'T'],
            Direction::North => seq!['N', 'O', 'R', 'T', 'H'],
            Direction::West => seq!['W', 'E', 'S', 'T'],
        }
    }

    /// The upper-case name of the direction.
    pub fn label(&self) -> (name: &'static str)
        ensures
            name@ == self.label_spec(),
    {
        proof {
            reveal_strlit("SOUTH");
            reveal_strlit("EAST");
            reveal_strlit("NORTH");
            reveal_strlit("WEST");
        }
        match self {
            Direction::South => "SOUTH",
            Direction::East => "EAST",
            Direction::North => "NORTH",
            Direction::West => "WEST",
        }
    }
}

} // verus!
