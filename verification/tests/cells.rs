use bender::{Cell, Direction, MazeError};

#[test]
fn every_supported_character_has_its_cell() {
    assert_eq!(Cell::new('@'), Ok(Cell::Start));
    assert_eq!(Cell::new('#'), Ok(Cell::Wall));
    assert_eq!(Cell::new(' '), Ok(Cell::Empty));
    assert_eq!(Cell::new('$'), Ok(Cell::Suicide));
    assert_eq!(Cell::new('X'), Ok(Cell::Obstacle));
    assert_eq!(Cell::new('S'), Ok(Cell::Dir(Direction::South)));
    assert_eq!(Cell::new('N'), Ok(Cell::Dir(Direction::North)));
    assert_eq!(Cell::new('E'), Ok(Cell::Dir(Direction::East)));
    assert_eq!(Cell::new('W'), Ok(Cell::Dir(Direction::West)));
    assert_eq!(Cell::new('I'), Ok(Cell::Invertor));
    assert_eq!(Cell::new('B'), Ok(Cell::Beer));
    assert_eq!(Cell::new('T'), Ok(Cell::Teleporter));
}

#[test]
fn other_characters_are_refused() {
    assert_eq!(Cell::new('?'), Err(MazeError::UnsupportedChar('?')));
    assert_eq!(Cell::new('s'), Err(MazeError::UnsupportedChar('s')));
    assert_eq!(Cell::new('x'), Err(MazeError::UnsupportedChar('x')));
    assert_eq!(Cell::new('\t'), Err(MazeError::UnsupportedChar('\t')));
    assert_eq!(Cell::new('é'), Err(MazeError::UnsupportedChar('é')));
}

#[test]
fn a_wall_blocks_every_agent() {
    assert!(Cell::Wall.is_blocking(false));
    assert!(Cell::Wall.is_blocking(true));
}

#[test]
fn an_obstacle_blocks_unless_speed_modified() {
    assert!(Cell::Obstacle.is_blocking(false));
    assert!(!Cell::Obstacle.is_blocking(true));
}

#[test]
fn no_other_cell_blocks() {
    let open = [
        Cell::Invalid,
        Cell::Start,
        Cell::Empty,
        Cell::Suicide,
        Cell::Dir(Direction::North),
        Cell::Dir(Direction::South),
        Cell::Dir(Direction::East),
        Cell::Dir(Direction::West),
        Cell::Invertor,
        Cell::Beer,
        Cell::Teleporter,
    ];
    for cell in open {
        assert!(!cell.is_blocking(false));
        assert!(!cell.is_blocking(true));
    }
}

#[test]
fn directions_have_upper_case_labels() {
    assert_eq!(Direction::South.label(), "SOUTH");
    assert_eq!(Direction::East.label(), "EAST");
    assert_eq!(Direction::North.label(), "NORTH");
    assert_eq!(Direction::West.label(), "WEST");
}
