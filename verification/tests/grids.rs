use bender::{Cell, Direction, Grid, MazeError, Position};

fn grid_lines(text: &str) -> Vec<String> {
    text.split('\n').map(String::from).collect()
}

fn at(column: usize, row: usize) -> Position {
    Position { column, row }
}

#[test]
fn cells_are_addressed_by_column_and_row() {
    let grid = Grid::new(2, 3, grid_lines("#@B\n $X")).unwrap();
    assert_eq!(grid.width(), 3);
    assert_eq!(grid.height(), 2);
    assert_eq!(*grid.get(at(0, 0)), Cell::Wall);
    assert_eq!(*grid.get(at(1, 0)), Cell::Start);
    assert_eq!(*grid.get(at(2, 0)), Cell::Beer);
    assert_eq!(*grid.get(at(0, 1)), Cell::Empty);
    assert_eq!(*grid.get(at(1, 1)), Cell::Suicide);
    assert_eq!(*grid.get(at(2, 1)), Cell::Obstacle);
}

#[test]
fn a_text_with_fewer_lines_than_announced_is_refused() {
    assert_eq!(Grid::new(3, 2, grid_lines("#@\n#$")), Err(MazeError::DimensionMismatch));
    assert_eq!(Grid::new(1, 1, Vec::new()), Err(MazeError::DimensionMismatch));
}

#[test]
fn a_line_shorter_than_the_width_is_refused() {
    assert_eq!(Grid::new(2, 2, grid_lines("#@\n#")), Err(MazeError::DimensionMismatch));
    assert_eq!(Grid::new(2, 2, grid_lines("#\n#@")), Err(MazeError::DimensionMismatch));
    assert_eq!(Grid::new(1, 4, grid_lines("#@")), Err(MazeError::DimensionMismatch));
}

#[test]
fn a_grid_that_is_built_holds_no_invalid_cell() {
    let grid = Grid::new(2, 6, grid_lines("@# $XS\nNEWIBT")).unwrap();
    assert_eq!(grid.width(), 6);
    assert_eq!(grid.height(), 2);
    assert_eq!(grid.find(Cell::Invalid), Vec::new());
    for column in 0..6 {
        for row in 0..2 {
            assert_ne!(*grid.get(at(column, row)), Cell::Invalid);
        }
    }
}

#[test]
fn an_empty_grid_has_no_cells() {
    let grid = Grid::new(0, 0, Vec::new()).unwrap();
    assert_eq!(grid.width(), 0);
    assert_eq!(grid.height(), 0);
    assert!(!grid.contains(at(0, 0)));
    assert_eq!(grid.find(Cell::Invalid), Vec::new());
    assert_eq!(grid.find(Cell::Wall), Vec::new());
}

#[test]
fn the_first_unsupported_character_is_reported() {
    let made = Grid::new(2, 3, grid_lines("#@#\n#?x"));
    assert_eq!(made, Err(MazeError::UnsupportedChar('?')));
}

#[test]
fn a_line_longer_than_the_width_is_refused() {
    let made = Grid::new(1, 2, grid_lines("###"));
    assert_eq!(made, Err(MazeError::DimensionMismatch));
}

#[test]
fn a_line_beyond_the_height_is_refused() {
    let made = Grid::new(1, 3, grid_lines("###\n#"));
    assert_eq!(made, Err(MazeError::DimensionMismatch));
}

#[test]
fn an_empty_line_beyond_the_height_is_refused() {
    assert_eq!(Grid::new(1, 3, grid_lines("#@#\n")), Err(MazeError::DimensionMismatch));
    assert_eq!(Grid::new(0, 0, grid_lines("")), Err(MazeError::DimensionMismatch));
}

#[test]
fn a_text_of_the_announced_size_is_accepted() {
    assert!(Grid::new(1, 3, grid_lines("#@#")).is_ok());
    assert!(Grid::new(2, 1, grid_lines("@\n$")).is_ok());
    assert!(Grid::new(0, 5, Vec::new()).is_ok());
}

#[test]
fn an_unsupported_character_is_reported_before_a_size_fault() {
    let made = Grid::new(1, 1, grid_lines("#\n??"));
    assert_eq!(made, Err(MazeError::UnsupportedChar('?')));
}

#[test]
fn set_overwrites_one_cell_only() {
    let mut grid = Grid::new(2, 2, grid_lines("#@\nX$")).unwrap();
    grid.set(at(0, 1), Cell::Empty);
    assert_eq!(*grid.get(at(0, 1)), Cell::Empty);
    assert_eq!(*grid.get(at(0, 0)), Cell::Wall);
    assert_eq!(*grid.get(at(1, 0)), Cell::Start);
    assert_eq!(*grid.get(at(1, 1)), Cell::Suicide);
    assert_eq!(grid, Grid::new(2, 2, grid_lines("#@\n $")).unwrap());
}

#[test]
fn find_scans_column_by_column() {
    let grid = Grid::new(3, 3, grid_lines(" TT\nT  \n T ")).unwrap();
    assert_eq!(grid.find(Cell::Teleporter), vec![at(0, 1), at(1, 0), at(1, 2), at(2, 0)]);
}

#[test]
fn find_tells_kinds_apart() {
    let grid = Grid::new(2, 3, grid_lines("SNE\nW@S")).unwrap();
    assert_eq!(grid.find(Cell::Dir(Direction::South)), vec![at(0, 0), at(2, 1)]);
    assert_eq!(grid.find(Cell::Dir(Direction::West)), vec![at(0, 1)]);
    assert_eq!(grid.find(Cell::Start), vec![at(1, 1)]);
    assert_eq!(grid.find(Cell::Wall), Vec::new());
}

#[test]
fn surroundings_are_the_four_adjacent_cells() {
    let grid = Grid::new(3, 3, grid_lines("#N#\nW@E\n#S#")).unwrap();
    let around = grid.surroundings(at(1, 1));
    assert_eq!(around.north, Cell::Dir(Direction::North));
    assert_eq!(around.south, Cell::Dir(Direction::South));
    assert_eq!(around.east, Cell::Dir(Direction::East));
    assert_eq!(around.west, Cell::Dir(Direction::West));
    assert_eq!(*around.get(Direction::North), Cell::Dir(Direction::North));
    assert_eq!(*around.get(Direction::South), Cell::Dir(Direction::South));
    assert_eq!(*around.get(Direction::East), Cell::Dir(Direction::East));
    assert_eq!(*around.get(Direction::West), Cell::Dir(Direction::West));
}

#[test]
fn only_cells_off_the_boundary_are_interior() {
    let grid = Grid::new(3, 4, grid_lines("####\n#@ #\n####")).unwrap();
    assert!(grid.is_interior(at(1, 1)));
    assert!(grid.is_interior(at(2, 1)));
    assert!(!grid.is_interior(at(0, 1)));
    assert!(!grid.is_interior(at(3, 1)));
    assert!(!grid.is_interior(at(1, 0)));
    assert!(!grid.is_interior(at(1, 2)));
    assert!(!grid.is_interior(at(4, 1)));
    assert!(!grid.is_interior(at(usize::MAX, usize::MAX)));
    assert!(grid.contains(at(3, 2)));
    assert!(!grid.contains(at(4, 2)));
    assert!(!grid.contains(at(3, 3)));
}

#[test]
fn a_clone_is_a_grid_of_its_own() {
    let grid = Grid::new(2, 2, grid_lines("#@\nX$")).unwrap();
    let mut copy = grid.clone();
    assert_eq!(copy, grid);
    copy.set(at(0, 1), Cell::Empty);
    assert_eq!(*copy.get(at(0, 1)), Cell::Empty);
    assert_eq!(*grid.get(at(0, 1)), Cell::Obstacle);
}
