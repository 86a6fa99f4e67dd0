use bender::driver::solve;
use bender::grid::Grid;

#[test]
fn test_debug_display() {
    let input = "#####
#@  #
#   #
#  $#
#####";
    let rows: Vec<String> = input.split('\n').map(String::from).collect();
    let map = Grid::new(5, 5, rows).unwrap();
    println!("{:?}", map);
}

#[test]
fn test_01() {
    let input = "#####
#@  #
#   #
#  $#
#####";
    let rows: Vec<String> = input.split('\n').map(String::from).collect();

    let expectation = "SOUTH
SOUTH
EAST
EAST\n";

    let output = solve(Grid::new(5, 5, rows).unwrap()).unwrap();
    assert_eq!(output, expectation);
}

#[test]
fn test_02() {
    let input = "########
# @    #
#     X#
# XXX  #
#   XX #
#   XX #
#     $#
########";
    let rows: Vec<String> = input.split('\n').map(String::from).collect();

    let expectation = "SOUTH
EAST
EAST
EAST
SOUTH
EAST
SOUTH
SOUTH
SOUTH\n";

    let output = solve(Grid::new(8, 8, rows).unwrap()).unwrap();
    assert_eq!(output, expectation);
}

#[test]
fn test_05() {
    let input = "##########
#        #
#  S   W #
#        #
#  $     #
#        #
#@       #
#        #
#E     N #
##########";
    let rows: Vec<String> = input.split('\n').map(String::from).collect();

    let expectation = "SOUTH
SOUTH
EAST
EAST
EAST
EAST
EAST
EAST
NORTH
NORTH
NORTH
NORTH
NORTH
NORTH
WEST
WEST
WEST
WEST
SOUTH
SOUTH\n";

    let output = solve(Grid::new(10, 10, rows).unwrap()).unwrap();
    assert_eq!(output, expectation);
}

#[test]
fn test_09() {
    let input = "##########
#        #
#  @     #
#  B     #
#  S   W #
# XXX    #
#  B   N #
# XXXXXXX#
#       $#
##########";
    let rows: Vec<String> = input.split('\n').map(String::from).collect();

    let expectation = "SOUTH
SOUTH
SOUTH
SOUTH
EAST
EAST
EAST
EAST
NORTH
NORTH
WEST
WEST
WEST
WEST
SOUTH
SOUTH
SOUTH
SOUTH
EAST
EAST
EAST
EAST
EAST\n";

    let output = solve(Grid::new(10, 10, rows).unwrap()).unwrap();
    assert_eq!(output, expectation);
}

#[test]
fn test_11() {
    let input = "###############
#      IXXXXX #
#  @          #
#E S          #
#             #
#  I          #
#  B          #
#  B   S     W#
#  B   T      #
#             #
#         T   #
#         B   #
#N          W$#
#        XXXX #
###############";
    let rows: Vec<String> = input.split('\n').map(String::from).collect();

    let expectation = "LOOP\n";

    let output = solve(Grid::new(15, 15, rows).unwrap()).unwrap();
    assert_eq!(output, expectation);
}
