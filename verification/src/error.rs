use vstd::prelude::*;

verus! {

/// The ways in which a maze description or a run can fail.
#[derive(Clone, Copy, Debug, PartialEq, Eq, Structural)]
pub enum MazeError {
    /// A character of the maze text stands for no cell.
    UnsupportedChar(char),
    /// The maze text does not have the announced number of rows, or a row does not have
    /// the announced number of characters.
    DimensionMismatch,
    /// The maze has no start cell.
    MissingStart,
    /// The maze has more than one start cell.
    DuplicateStart,
    /// The maze has teleporters, but not exactly two of them.
    UnpairedTeleporter,
    /// The agent stands on the outer boundary, or outside the grid, and cannot look around.
    OffGrid,
    /// The agent is blocked on all four sides.
    BoxedIn,
}

} // verus!
