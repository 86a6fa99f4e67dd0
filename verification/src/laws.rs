use vstd::prelude::*;
use crate::agent::Bender;
use crate::cell::Cell;
use crate::direction::Direction;
use crate::driver::{alive_after, drive, simulate, walk, Ending, STEP_LIMIT};
use crate::error::MazeError;
use crate::layout::{first_other, lemma_occurrences, lemma_with_cell, Layout};
use crate::position::Position;

verus! {

/// A direction found by `first_open` may be entered, stands at or after `from` in the
/// priority order, and every direction tried before it is blocked. If none is found, all
/// directions from `from` on are blocked.
pub proof fn lemma_first_open(agent: Bender, layout: Layout, from: int)
    requires
        0 <= from <= 4,
    ensures
        match agent.first_open(layout, from) {
            Some(dir) => {
                &&& agent.can_enter(layout, dir)
                &&& from <= dir.rank(agent.inverted) < 4
                &&& forall|i: int|
                    from <= i < dir.rank(agent.inverted) ==> !agent.can_enter(
                        layout,
                        #[trigger] Direction::priority(agent.inverted)[i],
                    )
            },
            None => forall|i: int|
                from <= i < 4 ==> !agent.can_enter(
                    layout,
                    #[trigger] Direction::priority(agent.inverted)[i],
                ),
        },
    decreases 4 - from,
{
    if from < 4 {
        lemma_first_open(agent, layout, from + 1);
    }
}

/// Turn priority: an agent on an interior cell that faces a blocked direction and may
/// enter the other three turns to the first of them in the priority order: south, east,
/// north, west, or west, north, east, south when the priority is inverted.
pub proof fn lemma_turn_priority(agent: Bender, layout: Layout)
    requires
        layout.interior(agent.pos),
        !agent.can_enter(layout, agent.dir),
        forall|dir: Direction| dir != agent.dir ==> agent.can_enter(layout, dir),
    ensures
        agent.resolved(layout, true) == Ok::<Direction, MazeError>(
            if Direction::priority(agent.inverted)[0] != agent.dir {
                Direction::priority(agent.inverted)[0]
            } else {
                Direction::priority(agent.inverted)[1]
            },
        ),
        agent.stepped(layout) is Ok,
        agent.stepped(layout)->Ok_0.direction == agent.resolved(layout, true)->Ok_0,
{
    reveal_with_fuel(Bender::first_open, 3);
}

/// A turn never fails for an agent on an interior cell that may enter some direction, and
/// the direction it turns to is one it may enter.
pub proof fn lemma_turn_finds_way(agent: Bender, layout: Layout, open: Direction)
    requires
        layout.interior(agent.pos),
        agent.can_enter(layout, open),
    ensures
        agent.resolved(layout, true) matches Ok(dir) && agent.can_enter(layout, dir),
{
    lemma_first_open(agent, layout, 0);
    assert(Direction::priority(agent.inverted)[open.rank(agent.inverted)] == open);
}

/// The first other position is `here` itself or one of the candidates.
pub proof fn lemma_first_other(candidates: Seq<Position>, here: Position, from: int)
    requires
        0 <= from,
    ensures
        first_other(candidates, here, from) == here || candidates.contains(
            first_other(candidates, here, from),
        ),
    decreases candidates.len() - from,
{
    if from < candidates.len() {
        if candidates[from] == here {
            lemma_first_other(candidates, here, from + 1);
        }
    }
}

/// A step leaves the grid as it is, but for an obstacle that it destroys: the size stays,
/// and a cell either keeps what it holds or was an obstacle and is now empty. The agent
/// stands on a cell of the grid afterwards.
pub proof fn lemma_step_keeps_grid(agent: Bender, layout: Layout)
    requires
        layout.wf(),
        agent.stepped(layout) is Ok,
    ensures
        ({
            let next = agent.stepped(layout)->Ok_0;
            &&& next.layout.wf()
            &&& next.layout.width() == layout.width()
            &&& next.layout.height() == layout.height()
            &&& next.layout.contains(next.agent.pos)
            &&& forall|q: Position|
                #[trigger] next.layout.cell(q) == layout.cell(q) || (layout.cell(q)
                    == Cell::Obstacle && next.layout.cell(q) == Cell::Empty)
        }),
{
    let next = agent.stepped(layout)->Ok_0;
    let dir = next.direction;
    let landing = agent.pos.neighbor(dir);
    assert(layout.contains(landing));
    if layout.cell(landing) == Cell::Obstacle {
        lemma_with_cell(layout, landing, Cell::Empty);
    }
    if layout.cell(landing) == Cell::Teleporter {
        let teleporters = layout.occurrences(Cell::Teleporter);
        lemma_occurrences(layout, Cell::Teleporter);
        lemma_first_other(teleporters, landing, 0);
    }
}

/// Any number of steps leave the grid as it is, but for the obstacles that they destroy.
pub proof fn lemma_walk_keeps_grid(agent: Bender, layout: Layout, n: nat)
    requires
        layout.wf(),
        walk(agent, layout, n) is Ok,
    ensures
        ({
            let journey = walk(agent, layout, n)->Ok_0;
            &&& journey.layout.wf()
            &&& journey.layout.width() == layout.width()
            &&& journey.layout.height() == layout.height()
            &&& journey.path.len() == n
            &&& forall|q: Position|
                #[trigger] journey.layout.cell(q) == layout.cell(q) || (layout.cell(q)
                    == Cell::Obstacle && journey.layout.cell(q) == Cell::Empty)
        }),
    decreases n,
{
    if n > 0 {
        let next = agent.stepped(layout)->Ok_0;
        lemma_step_keeps_grid(agent, layout);
        lemma_walk_keeps_grid(next.agent, next.layout, (n - 1) as nat);
    }
}

/// Obstacle destruction: a step that lands on an obstacle is made by a speed-modified
/// agent and turns the obstacle into an empty cell. The cell then stays empty through any
/// number of steps of any agent, `second`, and no agent is refused entry to it, whether
/// speed-modified or not.
pub proof fn lemma_obstacle_destroyed(agent: Bender, layout: Layout, second: Bender, n: nat)
    requires
        layout.wf(),
        agent.stepped(layout) is Ok,
        layout.cell(agent.pos.neighbor(agent.stepped(layout)->Ok_0.direction)) == Cell::Obstacle,
        walk(second, agent.stepped(layout)->Ok_0.layout, n) is Ok,
    ensures
        agent.drunk,
        ({
            let next = agent.stepped(layout)->Ok_0;
            let place = agent.pos.neighbor(next.direction);
            let later = walk(second, next.layout, n)->Ok_0;
            &&& next.layout == layout.with_cell(place, Cell::Empty)
            &&& next.layout.cell(place) == Cell::Empty
            &&& later.layout.cell(place) == Cell::Empty
            &&& forall|other: Bender, dir: Direction|
                #[trigger] other.pos.neighbor(dir) == place ==> other.can_enter(next.layout, dir)
                    && #[trigger] other.can_enter(later.layout, dir)
        }),
{
    let next = agent.stepped(layout)->Ok_0;
    let place = agent.pos.neighbor(next.direction);
    lemma_first_open(agent, layout, 0);
    assert(agent.can_enter(layout, next.direction));
    assert(layout.contains(place));
    lemma_with_cell(layout, place, Cell::Empty);
    lemma_step_keeps_grid(agent, layout);
    lemma_walk_keeps_grid(second, next.layout, n);
}

/// Teleport symmetry: where the grid has two teleporters `a` and `b` and no other, the
/// target of each is the other, so an agent that lands on one comes out on the other.
pub proof fn lemma_teleport_symmetry(layout: Layout, a: Position, b: Position)
    requires
        layout.wf(),
        layout.pairs(a, b),
    ensures
        layout.teleport_target(a) == b,
        layout.teleport_target(b) == a,
        layout.teleporters_paired(),
        forall|agent: Bender| agent.pos == a ==> (#[trigger] agent.landed(layout)).pos == b,
        forall|agent: Bender| agent.pos == b ==> (#[trigger] agent.landed(layout)).pos == a,
{
    let found = layout.occurrences(Cell::Teleporter);
    lemma_occurrences(layout, Cell::Teleporter);
    let ia = choose|i: int| 0 <= i < found.len() && found[i] == a;
    let ib = choose|i: int| 0 <= i < found.len() && found[i] == b;
    assert(found.contains(a) && found.contains(b));
    assert(ia != ib);
    if found.len() > 2 {
        assert(found[0].scanned_before(found[1]));
        assert(found[0].scanned_before(found[2]));
        assert(found[1].scanned_before(found[2]));
        assert(layout.cell(found[0]) == Cell::Teleporter);
        assert(layout.cell(found[1]) == Cell::Teleporter);
        assert(layout.cell(found[2]) == Cell::Teleporter);
        assert(false);
    }
    assert(found.len() == 2);
    assert(found[0].scanned_before(found[1]));
    reveal_with_fuel(first_other, 3);
}

/// The two teleporters of a grid stay its two teleporters through any number of steps, so
/// each later visit swaps the agent as the first did.
pub proof fn lemma_teleport_pair_persists(
    agent: Bender,
    layout: Layout,
    a: Position,
    b: Position,
    n: nat,
)
    requires
        layout.wf(),
        layout.pairs(a, b),
        walk(agent, layout, n) is Ok,
    ensures
        walk(agent, layout, n)->Ok_0.layout.pairs(a, b),
        walk(agent, layout, n)->Ok_0.layout.teleport_target(a) == b,
        walk(agent, layout, n)->Ok_0.layout.teleport_target(b) == a,
{
    let later = walk(agent, layout, n)->Ok_0.layout;
    lemma_walk_keeps_grid(agent, layout, n);
    assert(later.cell(a) == Cell::Teleporter);
    assert(later.cell(b) == Cell::Teleporter);
    assert forall|q: Position| #[trigger] later.cell(q) == Cell::Teleporter implies q == a || q
        == b by {
        assert(layout.cell(q) == Cell::Teleporter);
    }
    lemma_teleport_symmetry(later, a, b);
}

/// Steps that succeed begin with steps that succeed: the first `k` of `n` steps that
/// succeed do so too, and take the first `k` directions of the path.
pub proof fn lemma_walk_prefix(agent: Bender, layout: Layout, k: nat, n: nat)
    requires
        k <= n,
        walk(agent, layout, n) is Ok,
    ensures
        walk(agent, layout, k) is Ok,
        walk(agent, layout, n)->Ok_0.path.len() == n,
        walk(agent, layout, k)->Ok_0.path == walk(agent, layout, n)->Ok_0.path.take(k as int),
    decreases n,
{
    if n > 0 {
        let next = agent.stepped(layout)->Ok_0;
        if k > 0 {
            lemma_walk_prefix(next.agent, next.layout, (k - 1) as nat, (n - 1) as nat);
            assert(walk(agent, layout, k)->Ok_0.path =~= walk(agent, layout, n)->Ok_0.path.take(
                k as int,
            ));
        } else {
            lemma_walk_prefix(next.agent, next.layout, 0, (n - 1) as nat);
            assert(walk(agent, layout, k)->Ok_0.path =~= walk(agent, layout, n)->Ok_0.path.take(
                k as int,
            ));
        }
    } else {
        assert(walk(agent, layout, k)->Ok_0.path =~= walk(agent, layout, n)->Ok_0.path.take(
            k as int,
        ));
    }
}

/// Whether the agent is alive after each of its first `n` steps and before them, and
/// its next step fails with `e`.
pub open spec fn fails_after(agent: Bender, layout: Layout, n: nat, e: MazeError) -> bool {
    &&& forall|k: nat| k <= n ==> alive_after(agent, layout, k)
    &&& walk(agent, layout, n + 1) == Err::<crate::driver::Journey, MazeError>(e)
}

/// What a run that goes on after the steps `taken` comes to, in terms of the steps that
/// the agent takes from there.
pub proof fn lemma_drive(agent: Bender, layout: Layout, taken: Seq<Direction>)
    requires
        taken.len() <= STEP_LIMIT,
    ensures
        match drive(agent, layout, taken) {
            Ok(Ending::Finished(path)) => {
                let n = (path.len() - taken.len()) as nat;
                &&& taken.len() <= path.len() <= STEP_LIMIT
                &&& walk(agent, layout, n) is Ok
                &&& walk(agent, layout, n)->Ok_0.agent.dead
                &&& path == taken + walk(agent, layout, n)->Ok_0.path
                &&& forall|k: nat| k < n ==> alive_after(agent, layout, k)
            },
            Ok(Ending::Loop) => {
                &&& walk(agent, layout, (STEP_LIMIT + 1 - taken.len()) as nat) is Ok
                &&& forall|k: nat| k <= STEP_LIMIT - taken.len() ==> alive_after(agent, layout, k)
            },
            Err(e) => exists|n: nat|
                taken.len() + n <= STEP_LIMIT && #[trigger] fails_after(agent, layout, n, e),
        },
    decreases STEP_LIMIT - taken.len(),
{
    if agent.dead {
        assert(taken + walk(agent, layout, 0)->Ok_0.path =~= taken);
    } else {
        match agent.stepped(layout) {
            Err(e) => {
                assert(alive_after(agent, layout, 0));
                assert(fails_after(agent, layout, 0, e));
            },
            Ok(next) => {
                assert(alive_after(agent, layout, 0));
                if taken.len() + 1 > STEP_LIMIT {
                    assert(walk(agent, layout, 1) is Ok) by {
                        reveal_with_fuel(walk, 2);
                    }
                } else {
                    let further = taken.push(next.direction);
                    lemma_drive(next.agent, next.layout, further);
                    match drive(next.agent, next.layout, further) {
                        Ok(Ending::Finished(path)) => {
                            let m = (path.len() - further.len()) as nat;
                            let rest = walk(next.agent, next.layout, m)->Ok_0;
                            assert(walk(agent, layout, m + 1)->Ok_0.path == seq![next.direction]
                                + rest.path);
                            assert(path =~= taken + (seq![next.direction] + rest.path));
                            assert forall|k: nat| k < m + 1 implies alive_after(
                                agent,
                                layout,
                                k,
                            ) by {
                                if k > 0 {
                                    assert(alive_after(next.agent, next.layout, (k - 1) as nat));
                                }
                            }
                        },
                        Ok(Ending::Loop) => {
                            assert forall|k: nat| k <= STEP_LIMIT - taken.len() implies alive_after(
                                agent,
                                layout,
                                k,
                            ) by {
                                if k > 0 {
                                    assert(alive_after(next.agent, next.layout, (k - 1) as nat));
                                }
                            }
                        },
                        Err(e) => {
                            let m = choose|m: nat|
                                further.len() + m <= STEP_LIMIT && #[trigger] fails_after(
                                    next.agent,
                                    next.layout,
                                    m,
                                    e,
                                );
                            assert forall|k: nat| k <= m + 1 implies alive_after(
                                agent,
                                layout,
                                k,
                            ) by {
                                if k > 0 {
                                    assert(alive_after(next.agent, next.layout, (k - 1) as nat));
                                }
                            }
                            assert(walk(next.agent, next.layout, m + 1) is Err);
                            assert(fails_after(agent, layout, m + 1, e));
                        },
                    }
                }
            },
        }
    }
}

/// Bound enforcement: a run is reported as a loop exactly when the agent is alive after
/// each of its first `STEP_LIMIT` steps and its next step succeeds; a run that is
/// reported with its path took `STEP_LIMIT` steps or fewer, all but the last by a living
/// agent, and the path lists the directions of just these steps.
pub proof fn lemma_bound_enforced(agent: Bender, layout: Layout)
    ensures
        drive(agent, layout, Seq::empty()) == Ok::<Ending, MazeError>(Ending::Loop) <==> {
            &&& walk(agent, layout, (STEP_LIMIT + 1) as nat) is Ok
            &&& forall|k: nat| k <= STEP_LIMIT ==> alive_after(agent, layout, k)
        },
        drive(agent, layout, Seq::empty()) matches Ok(Ending::Finished(path)) ==> {
            &&& path.len() <= STEP_LIMIT
            &&& walk(agent, layout, path.len()) is Ok
            &&& walk(agent, layout, path.len())->Ok_0.agent.dead
            &&& walk(agent, layout, path.len())->Ok_0.path == path
            &&& forall|k: nat| k < path.len() ==> alive_after(agent, layout, k)
        },
{
    let start = Seq::<Direction>::empty();
    lemma_drive(agent, layout, start);
    match drive(agent, layout, start) {
        Ok(Ending::Finished(path)) => {
            assert(start + walk(agent, layout, path.len())->Ok_0.path =~= walk(
                agent,
                layout,
                path.len(),
            )->Ok_0.path);
            assert(!alive_after(agent, layout, path.len()));
        },
        Ok(Ending::Loop) => {},
        Err(e) => {
            let n = choose|n: nat|
                start.len() + n <= STEP_LIMIT && #[trigger] fails_after(agent, layout, n, e);
            if walk(agent, layout, (STEP_LIMIT + 1) as nat) is Ok {
                lemma_walk_prefix(agent, layout, n + 1, (STEP_LIMIT + 1) as nat);
            }
        },
    }
}

/// Determinism: a run is a function of the grid, so two runs on one grid end alike.
pub proof fn lemma_deterministic(first: Layout, second: Layout)
    requires
        first == second,
    ensures
        simulate(first) == simulate(second),
{
}

} // verus!
