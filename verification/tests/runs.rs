use bender::{run, solve, Direction, Grid, MazeError, Outcome, STEP_LIMIT};

fn plan(text: &str) -> Grid {
    let rows: Vec<String> = text.split('\n').map(String::from).collect();
    let height = rows.len();
    let width = rows.iter().map(|row| row.chars().count()).max().unwrap_or(0);
    Grid::new(height, width, rows).unwrap()
}

fn corridor(steps: usize) -> Grid {
    let wall = "#".repeat(steps + 3);
    let floor = format!("#@{}$#", " ".repeat(steps - 1));
    Grid::new(3, steps + 3, vec![wall.clone(), floor, wall]).unwrap()
}

#[test]
fn the_step_limit_is_ten_thousand() {
    assert_eq!(STEP_LIMIT, 10000);
}

#[test]
fn a_run_reports_the_directions_of_its_steps() {
    let grid = plan("#####\n#@  #\n#   #\n#  $#\n#####");
    let expected = vec![Direction::South, Direction::South, Direction::East, Direction::East];
    assert_eq!(run(grid), Ok(Outcome::Finished(expected)));
}

#[test]
fn a_run_that_never_ends_is_a_loop() {
    let grid = plan("####\n#@ #\n#  #\n####");
    assert_eq!(run(grid.clone()), Ok(Outcome::Loop));
    assert_eq!(solve(grid), Ok(String::from("LOOP\n")));
}

#[test]
fn a_run_of_exactly_the_step_limit_is_reported_in_full() {
    let expected = vec![Direction::East; 10000];
    assert_eq!(run(corridor(10000)), Ok(Outcome::Finished(expected)));
    assert_eq!(solve(corridor(10000)), Ok("EAST\n".repeat(10000)));
}

#[test]
fn a_run_of_one_step_more_than_the_limit_is_a_loop() {
    assert_eq!(run(corridor(10001)), Ok(Outcome::Loop));
    assert_eq!(solve(corridor(10001)), Ok(String::from("LOOP\n")));
}

#[test]
fn a_run_just_below_the_step_limit_is_reported_in_full() {
    assert_eq!(run(corridor(9999)), Ok(Outcome::Finished(vec![Direction::East; 9999])));
}

#[test]
fn two_runs_on_one_grid_end_alike() {
    let mazes = [
        "#####\n#@  #\n#   #\n#  $#\n#####",
        "######\n#@XB #\n# T  #\n#I T$#\n######",
        "####\n#@ #\n#  #\n####",
        "###\n#@#\n###",
    ];
    for text in mazes {
        let grid = plan(text);
        assert_eq!(run(grid.clone()), run(grid.clone()));
        assert_eq!(solve(grid.clone()), solve(grid));
    }
}

#[test]
fn a_run_leaves_the_grid_it_was_given_to_its_owner() {
    let grid = plan("######\n#@BX$#\n######");
    let kept = grid.clone();
    assert_eq!(solve(grid), Ok(String::from("EAST\nEAST\nEAST\n")));
    assert_eq!(kept, plan("######\n#@BX$#\n######"));
}

#[test]
fn a_grid_without_start_is_refused() {
    let grid = plan("####\n#  #\n# $#\n####");
    assert_eq!(run(grid.clone()), Err(MazeError::MissingStart));
    assert_eq!(solve(grid), Err(MazeError::MissingStart));
}

#[test]
fn a_grid_with_two_starts_is_refused() {
    let grid = plan("####\n#@ #\n#@$#\n####");
    assert_eq!(run(grid.clone()), Err(MazeError::DuplicateStart));
    assert_eq!(solve(grid), Err(MazeError::DuplicateStart));
}

#[test]
fn a_grid_with_one_teleporter_is_refused() {
    let grid = plan("####\n#@T#\n# $#\n####");
    assert_eq!(run(grid.clone()), Err(MazeError::UnpairedTeleporter));
    assert_eq!(solve(grid), Err(MazeError::UnpairedTeleporter));
}

#[test]
fn a_grid_with_three_teleporters_is_refused() {
    let grid = plan("#####\n#@TT#\n#T $#\n#####");
    assert_eq!(run(grid), Err(MazeError::UnpairedTeleporter));
}

#[test]
fn a_grid_is_checked_before_the_first_step() {
    assert_eq!(run(plan("@T\n $")), Err(MazeError::UnpairedTeleporter));
    assert_eq!(run(plan(" T\n $")), Err(MazeError::MissingStart));
}

#[test]
fn a_run_that_leaves_the_walls_fails() {
    assert_eq!(run(plan("@ \n $")), Err(MazeError::OffGrid));
    assert_eq!(solve(plan("####\n#@  \n####")), Err(MazeError::OffGrid));
}

#[test]
fn a_run_of_a_boxed_in_agent_fails() {
    assert_eq!(run(plan("###\n#@#\n###")), Err(MazeError::BoxedIn));
    assert_eq!(solve(plan("###\n#@#\n#X#\n###")), Err(MazeError::BoxedIn));
}

#[test]
fn a_pair_of_teleporters_carries_the_agent_over() {
    let grid = plan("#######\n#@T#T$#\n#######");
    assert_eq!(solve(grid), Ok(String::from("EAST\nEAST\n")));
}

#[test]
fn outcomes_are_rendered_line_by_line() {
    assert_eq!(Outcome::Loop.render(), "LOOP\n");
    assert_eq!(Outcome::Finished(Vec::new()).render(), "");
    let path = vec![Direction::North, Direction::West, Direction::South, Direction::East];
    assert_eq!(Outcome::Finished(path).render(), "NORTH\nWEST\nSOUTH\nEAST\n");
}
