use vstd::prelude::*;
use crate::cell::Cell;
use crate::direction::Direction;
use crate::error::MazeError;
use crate::grid::Grid;
use crate::layout::{first_other, Layout};
use crate::position::Position;

verus! {

/// The agent that walks the maze.
#[derive(Clone, Copy, Debug, PartialEq, Eq, Structural)]
pub struct Bender {
    /// Where the agent stands.
    pub pos: Position,
    /// The direction the agent faces.
    pub dir: Direction,
    /// Speed-modified: obstacles do not stop the agent.
    pub drunk: bool,
    /// The turn priority is reversed.
    pub inverted: bool,
    /// The agent has reached the terminal cell.
    pub dead: bool,
}

/// What one step of the agent leads to.
pub struct Moved {
    /// The agent after the step.
    pub agent: Bender,
    /// The grid after the step.
    pub layout: Layout,
    /// The direction in which the agent moved.
    pub direction: Direction,
}

impl Bender {
    /// The agent as a run begins: on `pos`, facing south, with no modifier.
    pub open spec fn at_start(pos: Position) -> Bender {
        Bender { pos, dir: Direction::South, drunk: false, inverted: false, dead: false }
    }

    /// The agent that a run on `layout` begins with: it stands on the one start cell. A
    /// grid without a start cell, or with several, has none.
    pub open spec fn start_of(layout: Layout) -> Result<Bender, MazeError> {
        let starts = layout.occurrences(Cell::Start);
        if starts.len() == 0 {
            Err(MazeError::MissingStart)
        } else if starts.len() == 1 {
            Ok(Bender::at_start(starts[0]))
        } else {
            Err(MazeError::DuplicateStart)
        }
    }

    /// Whether the agent may enter the adjacent cell in direction `dir`.
    pub open spec fn can_enter(self, layout: Layout, dir: Direction) -> bool {
        !layout.cell(self.pos.neighbor(dir)).blocks(self.drunk)
    }

    /// The direction to try after the facing direction has turned out blocked: the first
    /// of the priority order on the first turn of a step, and afterwards the one that
    /// follows the facing direction in that order. After the last there is none.
    pub open spec fn next_candidate(self, first_turn: bool) -> Result<Direction, MazeError> {
        let order = Direction::priority(self.inverted);
        let rank = self.dir.rank(self.inverted);
        if first_turn {
            Ok(order[0])
        } else if rank < 3 {
            Ok(order[rank + 1])
        } else {
            Err(MazeError::BoxedIn)
        }
    }

    /// The first direction of the priority order, from index `from` on, that the agent
    /// may enter.
    pub open spec fn first_open(self, layout: Layout, from: int) -> Option<Direction>
        decreases 4 - from,
    {
        let order = Direction::priority(self.inverted);
        if from < 0 || from >= 4 {
            None
        } else if self.can_enter(layout, order[from]) {
            Some(order[from])
        } else {
            self.first_open(layout, from + 1)
        }
    }

    /// The direction in which the agent leaves its cell. It keeps its facing direction if
    /// it may enter the cell ahead. Otherwise it takes the first direction of the priority
    /// order that it may enter; when `first_turn` is false, only the directions that follow
    /// the facing direction in that order are tried.
    ///
    /// An agent that is not on an interior cell cannot look around, and an agent that may
    /// enter none of the directions tried is boxed in.
    pub open spec fn resolved(self, layout: Layout, first_turn: bool) -> Result<
        Direction,
        MazeError,
    > {
        if !layout.interior(self.pos) {
            Err(MazeError::OffGrid)
        } else if self.can_enter(layout, self.dir) {
            Ok(self.dir)
        } else {
            let from = if first_turn {
                0
            } else {
                self.dir.rank(self.inverted) + 1
            };
            match self.first_open(layout, from) {
                Some(dir) => Ok(dir),
                None => Err(MazeError::BoxedIn),
            }
        }
    }

    /// The agent after the cell it stands on has taken effect.
    pub open spec fn landed(self, layout: Layout) -> Bender {
        match layout.cell(self.pos) {
            Cell::Suicide => Bender { dead: true, ..self },
            Cell::Dir(dir) => Bender { dir, ..self },
            Cell::Beer => Bender { drunk: !self.drunk, ..self },
            Cell::Invertor => Bender { inverted: !self.inverted, ..self },
            Cell::Teleporter => Bender { pos: layout.teleport_target(self.pos), ..self },
            _ => self,
        }
    }

    /// One step of the agent on `layout`: it resolves its direction, moves one cell that
    /// way, and the cell it lands on takes effect.
    pub open spec fn stepped(self, layout: Layout) -> Result<Moved, MazeError> {
        match self.resolved(layout, true) {
            Err(e) => Err(e),
            Ok(dir) => {
                let arrived = Bender { dir, pos: self.pos.neighbor(dir), ..self };
                Ok(
                    Moved {
                        agent: arrived.landed(layout),
                        layout: layout.after_landing(arrived.pos),
                        direction: dir,
                    },
                )
            },
        }
    }

    /// Places the agent on the start cell of `map`.
    pub fn new(map: &Grid) -> (made: Result<Bender, MazeError>)
        ensures
            made == Bender::start_of(map@),
    {
        let starts = map.find(Cell::Start);
        if starts.len() == 0 {
            Err(MazeError::MissingStart)
        } else if starts.len() == 1 {
            Ok(
                Bender {
                    pos: starts[0],
                    dir: Direction::South,
                    drunk: false,
                    inverted: false,
                    dead: false,
                },
            )
        } else {
            Err(MazeError::DuplicateStart)
        }
    }

    /// Resolves the facing direction, moves, and applies the effect of the cell reached.
    /// Returns the direction moved in. On failure neither the agent nor the grid changes.
    pub fn step(&mut self, map: &mut Grid) -> (moved: Result<Direction, MazeError>)
        ensures
            match old(self).stepped(old(map)@) {
                Ok(next) => {
                    &&& moved == Ok::<Direction, MazeError>(next.direction)
                    &&& *final(self) == next.agent
                    &&& final(map)@ == next.layout
                },
                Err(e) => {
                    &&& moved == Err::<Direction, MazeError>(e)
                    &&& *final(self) == *old(self)
                    &&& final(map)@ == old(map)@
                },
            },
    {
        match self.turn(map, true) {
            Err(e) => {
                return Err(e);
            },
            Ok(()) => {},
        }
        let dir = self.dir;
        proof {
            use_type_invariant(&*map);
        }
        self.move_forward();
        self.apply_cell_effect(map);
        Ok(dir)
    }

    /// Turns the agent into the direction in which it will leave its cell.
    /// On failure the agent does not change.
    pub fn turn(&mut self, map: &Grid, first_turn: bool) -> (turned: Result<(), MazeError>)
        ensures
            match old(self).resolved(map@, first_turn) {
                Ok(dir) => turned is Ok && *final(self) == (Bender { dir, ..*old(self) }),
                Err(e) => turned == Err::<(), MazeError>(e) && *final(self) == *old(self),
            },
    {
        if !map.is_interior(self.pos) {
            return Err(MazeError::OffGrid);
        }
        let around = map.surroundings(self.pos);
        let mut probe = *self;
        let mut first = first_turn;
        loop
            invariant
                *self == *old(self),
                map@.interior(self.pos),
                forall|dir: Direction| around.at(dir) == map@.cell(#[trigger] self.pos.neighbor(dir)),
                probe == (Bender { dir: probe.dir, ..*self }),
                probe.resolved(map@, first) == self.resolved(map@, first_turn),
            decreases
                    (if first {
                        5int
                    } else {
                        4 - probe.dir.rank(probe.inverted)
                    }),
        {
            if !around.get(probe.dir).is_blocking(probe.drunk) {
                self.dir = probe.dir;
                return Ok(());
            }
            match probe.next_dir(first) {
                Ok(dir) => {
                    proof {
                        let after = Bender { dir, ..probe };
                        let order = Direction::priority(probe.inverted);
                        let rank = dir.rank(probe.inverted);
                        assert(order[rank] == dir);
                        lemma_first_open_ignores_facing(probe, after, map@, rank);
                        lemma_first_open_ignores_facing(probe, after, map@, rank + 1);
                        assert(after.resolved(map@, false) == probe.resolved(map@, first));
                    }
                    probe.dir = dir;
                },
                Err(e) => {
                    return Err(e);
                },
            }
            first = false;
        }
    }

    /// The direction to try next once the facing direction has turned out blocked.
    pub fn next_dir(&self, first_turn: bool) -> (next: Result<Direction, MazeError>)
        ensures
            next == self.next_candidate(first_turn),
    {
        match (first_turn, self.inverted) {
            (true, false) => Ok(Direction::South),
            (false, false) => match self.dir {
                Direction::South => Ok(Direction::East),
                Direction::East => Ok(Direction::North),
                Direction::North => Ok(Direction::West),
                Direction::West => Err(MazeError::BoxedIn),
            },
            (true, true) => Ok(Direction::West),
            (false, true) => match self.dir {
                Direction::West => Ok(Direction::North),
                Direction::North => Ok(Direction::East),
                Direction::East => Ok(Direction::South),
                Direction::South => Err(MazeError::BoxedIn),
            },
        }
    }

    /// Moves the agent one cell in its facing direction.
    pub fn move_forward(&mut self)
        requires
            old(self).pos.can_move(old(self).dir),
        ensures
            *final(self) == (Bender { pos: old(self).pos.neighbor(old(self).dir), ..*old(self) }),
    {
        match self.dir {
            Direction::South => {
                self.pos.row += 1;
            },
            Direction::East => {
                self.pos.column += 1;
            },
            Direction::North => {
                self.pos.row -= 1;
            },
            Direction::West => {
                self.pos.column -= 1;
            },
        }
    }

    /// Applies the effect of the cell the agent stands on, to the agent and to the grid.
    pub fn apply_cell_effect(&mut self, map: &mut Grid)
        requires
            old(map)@.contains(old(self).pos),
        ensures
            *final(self) == old(self).landed(old(map)@),
            final(map)@ == old(map)@.after_landing(old(self).pos),
    {
        let cell = *map.get(self.pos);
        match cell {
            Cell::Suicide => {
                self.dead = true;
            },
            Cell::Dir(dir) => {
                self.dir = dir;
            },
            Cell::Beer => {
                self.drunk = !self.drunk;
            },
            Cell::Invertor => {
                self.inverted = !self.inverted;
            },
            Cell::Teleporter => {
                let teleporters = map.find(Cell::Teleporter);
                let here = self.pos;
                let mut i: usize = 0;
                while i < teleporters.len()
                    invariant_except_break
                        self.pos == here,
                    invariant
                        i <= teleporters@.len(),
                        *self == (Bender { pos: self.pos, ..*old(self) }),
                        first_other(teleporters@, here, 0) == first_other(
                            teleporters@,
                            here,
                            i as int,
                        ),
                    ensures
                        self.pos == first_other(teleporters@, here, 0),
                    decreases teleporters@.len() - i,
                {
                    if teleporters[i] != here {
                        self.pos = teleporters[i];
                        break ;
                    }
                    i += 1;
                }
            },
            Cell::Obstacle => {
                map.set(self.pos, Cell::Empty);
            },
            _ => {},
        }
    }
}

/// Which directions an agent may enter does not depend on the direction it faces.
pub proof fn lemma_first_open_ignores_facing(a: Bender, b: Bender, layout: Layout, from: int)
    requires
        a.pos == b.pos,
        a.drunk == b.drunk,
        a.inverted == b.inverted,
    ensures
        a.first_open(layout, from) == b.first_open(layout, from),
    decreases 4 - from,
{
    if 0 <= from < 4 {
        lemma_first_open_ignores_facing(a, b, layout, from + 1);
    }
}

} // verus!
