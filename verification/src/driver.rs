use vstd::prelude::*;
use crate::agent::Bender;
use crate::cell::Cell;
use crate::direction::Direction;
use crate::error::MazeError;
use crate::grid::Grid;
use crate::layout::Layout;

verus! {

/// The number of steps after which a run that has not ended counts as endless.
pub const STEP_LIMIT: usize = 10000;

/// How a run ends, as a mathematical value.
pub enum Ending {
    /// The agent reached the terminal cell; the directions of its steps, in order.
    Finished(Seq<Direction>),
    /// The agent was still walking after `STEP_LIMIT` steps.
    Loop,
}

/// How a run ends.
#[derive(Debug, PartialEq, Eq)]
pub enum Outcome {
    /// The agent reached the terminal cell; the directions of its steps, in order.
    Finished(Vec<Direction>),
    /// The agent was still walking after `STEP_LIMIT` steps.
    Loop,
}

impl View for Outcome {
    type V = Ending;

    open spec fn view(&self) -> Ending {
        match self {
            Outcome::Finished(path) => Ending::Finished(path@),
            Outcome::Loop => Ending::Loop,
        }
    }
}

/// One line for each direction of `path`: its upper-case name and a line feed.
pub open spec fn lines_of(path: Seq<Direction>) -> Seq<char>
    decreases path.len(),
{
    if path.len() == 0 {
        Seq::empty()
    } else {
        lines_of(path.drop_last()) + path.last().label_spec() + seq!['\n']
    }
}

impl Ending {
    /// The text that reports the ending: the lines of the path, or the one line `LOOP`.
    pub open spec fn rendered(self) -> Seq<char> {
        match self {
            Ending::Finished(path) => lines_of(path),
            Ending::Loop => seq!['L', 'O', 'O', 'P', '\n'],
        }
    }
}

/// Where an agent has got to after some steps.
pub struct Journey {
    /// The agent after the steps.
    pub agent: Bender,
    /// The grid after the steps.
    pub layout: Layout,
    /// The directions of the steps, in order.
    pub path: Seq<Direction>,
}

/// The first `n` steps of an agent on `layout`, whether it has reached the terminal cell
/// or not. They fail as the first step among them that fails.
pub open spec fn walk(agent: Bender, layout: Layout, n: nat) -> Result<Journey, MazeError>
    decreases n,
{
    if n == 0 {
        Ok(Journey { agent, layout, path: Seq::empty() })
    } else {
        match agent.stepped(layout) {
            Err(e) => Err(e),
            Ok(next) => match walk(next.agent, next.layout, (n - 1) as nat) {
                Err(e) => Err(e),
                Ok(rest) => Ok(
                    Journey {
                        agent: rest.agent,
                        layout: rest.layout,
                        path: seq![next.direction] + rest.path,
                    },
                ),
            },
        }
    }
}

/// Whether the first `n` steps of an agent on `layout` succeed and leave it alive.
pub open spec fn alive_after(agent: Bender, layout: Layout, n: nat) -> bool {
    walk(agent, layout, n) matches Ok(journey) && !journey.agent.dead
}

/// How a run goes on from an agent on `layout` that has taken the steps `taken`. A dead
/// agent has finished. A living agent takes one more step; the run fails if the step
/// does, is endless if that step is beyond `STEP_LIMIT`, and otherwise goes on from there.
pub open spec fn drive(agent: Bender, layout: Layout, taken: Seq<Direction>) -> Result<
    Ending,
    MazeError,
>
    decreases STEP_LIMIT - taken.len(),
{
    if agent.dead {
        Ok(Ending::Finished(taken))
    } else {
        match agent.stepped(layout) {
            Err(e) => Err(e),
            Ok(next) => if taken.len() + 1 > STEP_LIMIT {
                Ok(Ending::Loop)
            } else {
                drive(next.agent, next.layout, taken.push(next.direction))
            },
        }
    }
}

/// The run on `layout` from its start cell. A grid without exactly one start cell, or
/// with teleporters that are not a pair, is refused before the first step.
pub open spec fn simulate(layout: Layout) -> Result<Ending, MazeError> {
    match Bender::start_of(layout) {
        Err(e) => Err(e),
        Ok(agent) => if layout.teleporters_paired() {
            drive(agent, layout, Seq::empty())
        } else {
            Err(MazeError::UnpairedTeleporter)
        },
    }
}

impl Outcome {
    /// The text that reports the outcome.
    pub fn render(&self) -> (text: String)
        ensures
            text@ == self@.rendered(),
    {
        match self {
            Outcome::Loop => {
                proof {
                    reveal_strlit("LOOP\n");
                }
                let text = String::from_str("LOOP\n");
                assert(text@ =~= self@.rendered());
                text
            },
            Outcome::Finished(path) => {
                let mut text = String::new();
                let mut i: usize = 0;
                while i < path.len()
                    invariant
                        i <= path@.len(),
                        text@ == lines_of(path@.take(i as int)),
                    decreases path@.len() - i,
                {
                    proof {
                        reveal_strlit("\n");
                        assert(path@.take(i + 1).drop_last() == path@.take(i as int));
                    }
                    text.append(path[i].label());
                    text.append("\n");
                    assert(text@ =~= lines_of(path@.take(i + 1)));
                    i += 1;
                }
                assert(path@.take(path@.len() as int) == path@);
                text
            },
        }
    }
}

/// Runs the agent through `map` from its start cell until it reaches the terminal cell
/// or has taken more than `STEP_LIMIT` steps.
pub fn run(map: Grid) -> (ran: Result<Outcome, MazeError>)
    ensures
        match simulate(map@) {
            Ok(ending) => ran matches Ok(outcome) && outcome@ == ending,
            Err(e) => ran matches Err(failure) && failure == e,
        },
{
    let mut grid = map;
    let mut bender = match Bender::new(&grid) {
        Ok(bender) => bender,
        Err(e) => {
            return Err(e);
        },
    };
    let teleporters = grid.find(Cell::Teleporter);
    if teleporters.len() != 0 && teleporters.len() != 2 {
        return Err(MazeError::UnpairedTeleporter);
    }
    let mut directions: Vec<Direction> = Vec::new();
    while !bender.dead
        invariant
            directions@.len() <= STEP_LIMIT,
            simulate(map@) == drive(bender, grid@, directions@),
        decreases STEP_LIMIT - directions@.len(),
    {
        match bender.step(&mut grid) {
            Ok(dir) => {
                directions.push(dir);
            },
            Err(e) => {
                return Err(e);
            },
        }
        if directions.len() > STEP_LIMIT {
            return Ok(Outcome::Loop);
        }
    }
    Ok(Outcome::Finished(directions))
}

/// Runs the agent through `map` and reports the run as text: one line for each step with
/// the direction moved in, or the single line `LOOP` for an endless run.
pub fn solve(map: Grid) -> (solved: Result<String, MazeError>)
    ensures
        match simulate(map@) {
            Ok(ending) => solved matches Ok(text) && text@ == ending.rendered(),
            Err(e) => solved matches Err(failure) && failure == e,
        },
{
    match run(map) {
        Ok(outcome) => Ok(outcome.render()),
        Err(e) => Err(e),
    }
}

} // verus!
