use vstd::prelude::*;
use crate::cell::Cell;
use crate::direction::Direction;
use crate::error::MazeError;
use crate::layout::{column_hits, Layout};
use crate::position::Position;

verus! {

/// The four cells adjacent to a position, one for each direction.
#[derive(Clone, Copy, Debug, PartialEq, Eq, Structural)]
pub struct Surroundings {
    pub north: Cell,
    pub south: Cell,
    pub east: Cell,
    pub west: Cell,
}

impl Surroundings {
    /// The adjacent cell in direction `dir`.
    pub open spec fn at(self, dir: Direction) -> Cell {
        match dir {
            Direction::North => self.north,
            Direction::South => self.south,
            Direction::East => self.east,
            Direction::West => self.west,
        }
    }

    /// Looks up the adjacent cell in direction `dir`.
    pub fn get(&self, dir: Direction) -> (cell: &Cell)
        ensures
            *cell == self.at(dir),
    {
        match dir {
            Direction::North => &self.north,
            Direction::South => &self.south,
            Direction::East => &self.east,
            Direction::West => &self.west,
        }
    }
}

/// The lines of a maze text as sequences of characters.
pub open spec fn text_of(rows: Seq<String>) -> Seq<Seq<char>> {
    Seq::new(rows.len(), |y: int| rows[y]@)
}

/// The first character of `line`, from index `from` on, that stands for no cell.
pub open spec fn unsupported_from(line: Seq<char>, from: int) -> Option<char>
    decreases line.len() - from,
{
    if from < 0 || from >= line.len() {
        None
    } else if Cell::of_char(line[from]) is None {
        Some(line[from])
    } else {
        unsupported_from(line, from + 1)
    }
}

/// The first character of `text` in reading order, from line `from` on, that stands for
/// no cell.
pub open spec fn first_unsupported(text: Seq<Seq<char>>, from: int) -> Option<char>
    decreases text.len() - from,
{
    if from < 0 || from >= text.len() {
        None
    } else {
        match unsupported_from(text[from], 0) {
            Some(c) => Some(c),
            None => first_unsupported(text, from + 1),
        }
    }
}

/// Whether `text` has the announced size: `rows_count` lines of `columns_count`
/// characters each.
pub open spec fn fits(text: Seq<Seq<char>>, rows_count: nat, columns_count: nat) -> bool {
    &&& text.len() == rows_count
    &&& forall|y: int| 0 <= y < text.len() ==> (#[trigger] text[y]).len() == columns_count
}

/// The cell that `text` gives for column `x` of row `y`: the cell of the character there.
/// Where the text has no character that stands for a cell, it gives `Cell::Invalid`.
pub open spec fn cell_in_text(text: Seq<Seq<char>>, x: int, y: int) -> Cell {
    if 0 <= y < text.len() && 0 <= x < text[y].len() {
        match Cell::of_char(text[y][x]) {
            Some(cell) => cell,
            None => Cell::Invalid,
        }
    } else {
        Cell::Invalid
    }
}

/// The grid of `rows_count` rows and `columns_count` columns that `text` describes.
pub open spec fn layout_of_text(text: Seq<Seq<char>>, rows_count: nat, columns_count: nat) -> Layout {
    Layout {
        columns: Seq::new(
            columns_count,
            |x: int| Seq::new(rows_count, |y: int| cell_in_text(text, x, y)),
        ),
    }
}

/// Whether `cells` holds, line for line, the cells of the characters of `text`.
spec fn reads(cells: Seq<Vec<Cell>>, text: Seq<Seq<char>>, upto: int) -> bool {
    forall|y: int|
        0 <= y < upto ==> {
            &&& (#[trigger] cells[y])@.len() == text[y].len()
            &&& forall|x: int|
                0 <= x < text[y].len() ==> Cell::of_char(text[y][x]) == Some(
                    #[trigger] cells[y]@[x],
                )
        }
}

/// Reads one line of a maze text.
fn parse_line(line: &str) -> (parsed: Result<Vec<Cell>, MazeError>)
    ensures
        match parsed {
            Ok(cells) => {
                &&& unsupported_from(line@, 0) is None
                &&& cells@.len() == line@.len()
                &&& forall|x: int|
                    0 <= x < line@.len() ==> Cell::of_char(line@[x]) == Some(#[trigger] cells@[x])
            },
            Err(e) => unsupported_from(line@, 0) matches Some(c) && e == MazeError::UnsupportedChar(
                c,
            ),
        },
{
    let mut cells: Vec<Cell> = Vec::new();
    for c in it: line.chars()
        invariant
            it.seq() == line@,
            cells@.len() == it.index(),
            forall|x: int|
                0 <= x < it.index() ==> Cell::of_char(line@[x]) == Some(#[trigger] cells@[x]),
            unsupported_from(line@, 0) == unsupported_from(line@, it.index()),
    {
        match Cell::new(c) {
            Ok(cell) => {
                cells.push(cell);
            },
            Err(e) => {
                return Err(e);
            },
        }
    }
    Ok(cells)
}

/// Reads all lines of a maze text, line by line.
fn parse_text(rows: &Vec<String>) -> (parsed: Result<Vec<Vec<Cell>>, MazeError>)
    ensures
        match parsed {
            Ok(lines) => {
                &&& first_unsupported(text_of(rows@), 0) is None
                &&& lines@.len() == rows@.len()
                &&& reads(lines@, text_of(rows@), rows@.len() as int)
            },
            Err(e) => first_unsupported(text_of(rows@), 0) matches Some(c) && e
                == MazeError::UnsupportedChar(c),
        },
{
    let ghost text = text_of(rows@);
    let mut lines: Vec<Vec<Cell>> = Vec::new();
    let mut y: usize = 0;
    while y < rows.len()
        invariant
            text == text_of(rows@),
            y <= rows@.len(),
            lines@.len() == y,
            reads(lines@, text, y as int),
            first_unsupported(text, 0) == first_unsupported(text, y as int),
        decreases rows@.len() - y,
    {
        match parse_line(rows[y].as_str()) {
            Ok(cells) => {
                lines.push(cells);
            },
            Err(e) => {
                return Err(e);
            },
        }
        y += 1;
    }
    Ok(lines)
}

/// Decides whether lines that were read have the announced size.
fn lines_fit(lines: &Vec<Vec<Cell>>, rows_count: usize, columns_count: usize) -> (fitting: bool)
    ensures
        fitting == (lines@.len() == rows_count && forall|y: int|
            0 <= y < lines@.len() ==> (#[trigger] lines@[y])@.len() == columns_count),
{
    if lines.len() != rows_count {
        return false;
    }
    let mut y: usize = 0;
    while y < lines.len()
        invariant
            y <= lines@.len(),
            forall|r: int| 0 <= r < y ==> (#[trigger] lines@[r])@.len() == columns_count,
        decreases lines@.len() - y,
    {
        if lines[y].len() != columns_count {
            return false;
        }
        y += 1;
    }
    true
}

/// Lays the cells of lines that were read out column by column.
fn columns_of(lines: &Vec<Vec<Cell>>, rows_count: usize, columns_count: usize) -> (columns: Vec<
    Vec<Cell>,
>)
    requires
        lines@.len() == rows_count,
        forall|y: int| 0 <= y < rows_count ==> (#[trigger] lines@[y])@.len() == columns_count,
    ensures
        columns@.len() == columns_count,
        forall|x: int|
            0 <= x < columns_count ==> {
                &&& (#[trigger] columns@[x])@.len() == rows_count
                &&& forall|y: int|
                    0 <= y < rows_count ==> #[trigger] columns@[x]@[y] == lines@[y]@[x]
            },
{
    let mut columns: Vec<Vec<Cell>> = Vec::new();
    let mut x: usize = 0;
    while x < columns_count
        invariant
            lines@.len() == rows_count,
            forall|y: int| 0 <= y < rows_count ==> (#[trigger] lines@[y])@.len() == columns_count,
            x <= columns_count,
            columns@.len() == x,
            forall|i: int|
                0 <= i < x ==> {
                    &&& (#[trigger] columns@[i])@.len() == rows_count
                    &&& forall|y: int|
                        0 <= y < rows_count ==> #[trigger] columns@[i]@[y] == lines@[y]@[i]
                },
        decreases columns_count - x,
    {
        let mut column: Vec<Cell> = Vec::new();
        let mut y: usize = 0;
        while y < rows_count
            invariant
                lines@.len() == rows_count,
                forall|r: int|
                    0 <= r < rows_count ==> (#[trigger] lines@[r])@.len() == columns_count,
                x < columns_count,
                y <= rows_count,
                column@.len() == y,
                forall|r: int| 0 <= r < y ==> #[trigger] column@[r] == lines@[r]@[x as int],
            decreases rows_count - y,
        {
            column.push(lines[y][x]);
            y += 1;
        }
        columns.push(column);
        x += 1;
    }
    columns
}

/// A rectangular maze, stored column by column.
#[derive(Debug, PartialEq, Eq)]
pub struct Grid {
    cells: Vec<Vec<Cell>>,
}

impl View for Grid {
    type V = Layout;

    closed spec fn view(&self) -> Layout {
        Layout { columns: Seq::new(self.cells@.len(), |x: int| self.cells@[x]@) }
    }
}

/// Replaces one cell of a grid stored column by column.
fn overwrite(cells: &mut Vec<Vec<Cell>>, pos: Position, cell: Cell)
    requires
        pos.column < old(cells)@.len(),
        pos.row < old(cells)@[pos.column as int]@.len(),
    ensures
        final(cells)@.len() == old(cells)@.len(),
        forall|x: int|
            0 <= x < old(cells)@.len() && x != pos.column ==> final(cells)@[x] == old(cells)@[x],
        final(cells)@[pos.column as int]@ == old(cells)@[pos.column as int]@.update(
            pos.row as int,
            cell,
        ),
    no_unwind
{
    cells[pos.column][pos.row] = cell;
}

impl Grid {
    /// Every grid is rectangular.
    #[verifier::type_invariant]
    pub open spec fn well_formed(self) -> bool {
        self@.wf()
    }

    /// What the view says of the stored columns.
    proof fn lemma_columns(self)
        ensures
            self@.width() == self.cells@.len(),
            forall|x: int| 0 <= x < self.cells@.len() ==> self@.columns[x] == self.cells@[x]@,
            self@.wf() ==> forall|x: int|
                0 <= x < self.cells@.len() ==> (#[trigger] self.cells@[x])@.len() == self@.height(),
    {
        assert forall|x: int| 0 <= x < self.cells@.len() && self@.wf() implies (
        #[trigger] self.cells@[x])@.len() == self@.height() by {
            assert(self@.columns[x].len() == self@.height());
        }
    }

    /// Columns of one length make a well-formed view.
    proof fn lemma_rectangular(self, height: nat)
        requires
            forall|x: int| 0 <= x < self.cells@.len() ==> (#[trigger] self.cells@[x])@.len() == height,
        ensures
            self@.wf(),
    {
        assert(self.cells.len() == self.cells@.len());
        if self.cells@.len() > 0 {
            assert(self.cells@[0].len() == self.cells@[0]@.len());
        }
        assert forall|x: int| 0 <= x < self@.columns.len() implies (#[trigger] self@.columns[x]).len()
            == self@.height() by {
            assert(self@.columns[x] == self.cells@[x]@);
            assert(self@.columns[0] == self.cells@[0]@);
        }
    }

    /// Builds the grid of `rows_count` rows and `columns_count` columns that the lines
    /// `rows` describe, one character for each cell.
    ///
    /// Fails on the first character in reading order that stands for no cell. If there is
    /// none, fails unless there are exactly `rows_count` lines of `columns_count`
    /// characters each. A grid that is built holds no `Cell::Invalid`.
    pub fn new(rows_count: usize, columns_count: usize, rows: Vec<String>) -> (made: Result<
        Grid,
        MazeError,
    >)
        ensures
            match made {
                Ok(grid) => {
                    &&& first_unsupported(text_of(rows@), 0) is None
                    &&& fits(text_of(rows@), rows_count as nat, columns_count as nat)
                    &&& grid@ == layout_of_text(
                        text_of(rows@),
                        rows_count as nat,
                        columns_count as nat,
                    )
                    &&& grid@.wf()
                    &&& grid@.width() == columns_count
                    &&& columns_count > 0 ==> grid@.height() == rows_count
                    &&& forall|p: Position|
                        grid@.contains(p) ==> #[trigger] grid@.cell(p) != Cell::Invalid
                },
                Err(e) => match first_unsupported(text_of(rows@), 0) {
                    Some(c) => e == MazeError::UnsupportedChar(c),
                    None => !fits(text_of(rows@), rows_count as nat, columns_count as nat) && e
                        == MazeError::DimensionMismatch,
                },
            },
    {
        let ghost text = text_of(rows@);
        let lines = match parse_text(&rows) {
            Ok(lines) => lines,
            Err(e) => {
                return Err(e);
            },
        };
        proof {
            assert forall|y: int| 0 <= y < lines@.len() implies (#[trigger] lines@[y])@.len()
                == text[y].len() by {}
        }
        if !lines_fit(&lines, rows_count, columns_count) {
            proof {
                if fits(text, rows_count as nat, columns_count as nat) {
                    assert forall|y: int| 0 <= y < lines@.len() implies (#[trigger] lines@[y])@.len()
                        == columns_count by {
                        assert(text[y].len() == columns_count);
                    }
                }
            }
            return Err(MazeError::DimensionMismatch);
        }
        let cells = columns_of(&lines, rows_count, columns_count);
        proof {
            (Grid { cells }).lemma_rectangular(rows_count as nat);
        }
        let grid = Grid { cells };
        proof {
            assert forall|y: int| 0 <= y < text.len() implies (#[trigger] text[y]).len()
                == columns_count by {
                assert(lines@[y]@.len() == columns_count);
            }
            grid.lemma_columns();
            let target = layout_of_text(text, rows_count as nat, columns_count as nat);
            assert forall|x: int| 0 <= x < columns_count implies #[trigger] grid@.columns[x]
                == target.columns[x] by {
                assert(grid@.columns[x] == grid.cells@[x]@);
                assert forall|y: int| 0 <= y < rows_count implies grid.cells@[x]@[y]
                    == cell_in_text(text, x, y) by {
                    assert(lines@[y]@.len() == columns_count);
                    assert(Cell::of_char(text[y][x]) == Some(lines@[y]@[x]));
                }
                assert(grid@.columns[x] =~= target.columns[x]);
            }
            assert(grid@.columns =~= target.columns);
            assert forall|p: Position| grid@.contains(p) implies #[trigger] grid@.cell(p)
                != Cell::Invalid by {
                let x = p.column as int;
                let y = p.row as int;
                assert(grid@.columns[x] == target.columns[x]);
                assert(grid@.cell(p) == cell_in_text(text, x, y));
                assert(lines@[y]@.len() == columns_count);
                assert(Cell::of_char(text[y][x]) == Some(lines@[y]@[x]));
            }
        }
        Ok(grid)
    }

    /// The number of columns.
    pub fn width(&self) -> (w: usize)
        ensures
            w == self@.width(),
            self@.wf(),
    {
        proof {
            use_type_invariant(self);
            self.lemma_columns();
        }
        self.cells.len()
    }

    /// The number of rows.
    pub fn height(&self) -> (h: usize)
        ensures
            h == self@.height(),
            self@.wf(),
    {
        proof {
            use_type_invariant(self);
            self.lemma_columns();
        }
        if self.cells.len() == 0 {
            0
        } else {
            self.cells[0].len()
        }
    }

    /// Decides whether `pos` addresses a cell of the grid.
    pub fn contains(&self, pos: Position) -> (inside: bool)
        ensures
            inside == self@.contains(pos),
    {
        pos.column < self.width() && pos.row < self.height()
    }

    /// Decides whether `pos` addresses a cell off the outer boundary.
    pub fn is_interior(&self, pos: Position) -> (inside: bool)
        ensures
            inside == self@.interior(pos),
    {
        let w = self.width();
        let h = self.height();
        0 < pos.column && pos.column < w && pos.column + 1 < w && 0 < pos.row && pos.row < h
            && pos.row + 1 < h
    }

    /// The cell at `pos`.
    pub fn get(&self, pos: Position) -> (cell: &Cell)
        requires
            self@.contains(pos),
        ensures
            *cell == self@.cell(pos),
    {
        proof {
            use_type_invariant(self);
            self.lemma_columns();
        }
        &self.cells[pos.column][pos.row]
    }

    /// Overwrites the cell at `pos`.
    pub fn set(&mut self, pos: Position, cell: Cell)
        requires
            old(self)@.contains(pos),
        ensures
            final(self)@ == old(self)@.with_cell(pos, cell),
    {
        proof {
            use_type_invariant(&*self);
            self.lemma_columns();
        }
        overwrite(&mut self.cells, pos, cell);
        proof {
            assert(self@.columns =~~= old(self)@.with_cell(pos, cell).columns);
        }
    }

    /// The four cells adjacent to `pos`.
    pub fn surroundings(&self, pos: Position) -> (around: Surroundings)
        requires
            self@.interior(pos),
        ensures
            forall|dir: Direction| around.at(dir) == self@.cell(#[trigger] pos.neighbor(dir)),
    {
        proof {
            use_type_invariant(self);
            self.lemma_columns();
        }
        Surroundings {
            north: self.cells[pos.column][pos.row - 1],
            south: self.cells[pos.column][pos.row + 1],
            east: self.cells[pos.column + 1][pos.row],
            west: self.cells[pos.column - 1][pos.row],
        }
    }

    /// All positions that hold `cell_to_find`, in scan order.
    pub fn find(&self, cell_to_find: Cell) -> (found: Vec<Position>)
        ensures
            found@ == self@.occurrences(cell_to_find),
    {
        let mut found: Vec<Position> = Vec::new();
        let mut x: usize = 0;
        while x < self.cells.len()
            invariant
                x <= self.cells@.len(),
                found@ == self@.hits(cell_to_find, x as nat),
            decreases self.cells@.len() - x,
        {
            let column = &self.cells[x];
            let mut y: usize = 0;
            while y < column.len()
                invariant
                    x < self.cells@.len(),
                    column@ == self@.columns[x as int],
                    y <= column@.len(),
                    found@ == self@.hits(cell_to_find, x as nat) + column_hits(
                        column@,
                        x,
                        cell_to_find,
                        y as nat,
                    ),
                decreases column@.len() - y,
            {
                if column[y] == cell_to_find {
                    found.push(Position { column: x, row: y });
                }
                y += 1;
            }
            x += 1;
        }
        found
    }
}

impl Clone for Grid {
    fn clone(&self) -> (copy: Self)
        ensures
            copy@ == self@,
    {
        proof {
            use_type_invariant(self);
            self.lemma_columns();
        }
        let mut cells: Vec<Vec<Cell>> = Vec::new();
        let mut x: usize = 0;
        while x < self.cells.len()
            invariant
                x <= self.cells@.len(),
                cells@.len() == x,
                forall|i: int| 0 <= i < x ==> (#[trigger] cells@[i])@ == self.cells@[i]@,
            decreases self.cells@.len() - x,
        {
            let column = &self.cells[x];
            let mut copied: Vec<Cell> = Vec::new();
            let mut y: usize = 0;
            while y < column.len()
                invariant
                    y <= column@.len(),
                    copied@ == column@.take(y as int),
                decreases column@.len() - y,
            {
                copied.push(column[y]);
                y += 1;
            }
            assert(copied@ == column@);
            cells.push(copied);
            x += 1;
        }
        proof {
            assert((Grid { cells })@.columns =~= self@.columns);
        }
        Grid { cells }
    }
}

} // verus!
