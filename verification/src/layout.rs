use vstd::prelude::*;
use crate::cell::Cell;
use crate::position::Position;

verus! {

/// The mathematical content of a grid: its columns from west to east, each column listing
/// its cells from north to south.
#[verifier::ext_equal]
pub struct Layout {
    pub columns: Seq<Seq<Cell>>,
}

/// The positions among the first `upto` rows of column `x` that hold `kind`, from north to
/// south.
pub open spec fn column_hits(column: Seq<Cell>, x: usize, kind: Cell, upto: nat) -> Seq<Position>
    decreases upto,
{
    if upto == 0 {
        Seq::empty()
    } else {
        let above = column_hits(column, x, kind, (upto - 1) as nat);
        if column[upto - 1] == kind {
            above.push(Position { column: x, row: (upto - 1) as usize })
        } else {
            above
        }
    }
}

/// The first position of `candidates`, from index `from` on, that differs from `here`, or
/// `here` if there is none.
pub open spec fn first_other(candidates: Seq<Position>, here: Position, from: int) -> Position
    decreases candidates.len() - from,
{
    if from < 0 || from >= candidates.len() {
        here
    } else if candidates[from] != here {
        candidates[from]
    } else {
        first_other(candidates, here, from + 1)
    }
}

impl Layout {
    pub open spec fn width(self) -> nat {
        self.columns.len()
    }

    pub open spec fn height(self) -> nat {
        if self.columns.len() == 0 {
            0
        } else {
            self.columns[0].len()
        }
    }

    /// The grid is rectangular, and its coordinates are representable.
    pub open spec fn wf(self) -> bool {
        &&& self.width() <= usize::MAX
        &&& self.height() <= usize::MAX
        &&& forall|x: int| 0 <= x < self.columns.len() ==> (#[trigger] self.columns[x]).len() == self.height()
    }

    /// Whether `p` addresses a cell of the grid.
    pub open spec fn contains(self, p: Position) -> bool {
        p.column < self.width() && p.row < self.height()
    }

    /// Whether `p` addresses a cell that is not on the outer boundary, so that all four
    /// neighbours of `p` are cells of the grid.
    pub open spec fn interior(self, p: Position) -> bool {
        &&& 0 < p.column
        &&& p.column + 1 < self.width()
        &&& 0 < p.row
        &&& p.row + 1 < self.height()
    }

    /// The cell at `p`; a position outside the grid reads as `Cell::Invalid`.
    pub open spec fn cell(self, p: Position) -> Cell {
        if self.contains(p) {
            self.columns[p.column as int][p.row as int]
        } else {
            Cell::Invalid
        }
    }

    /// The grid with the cell at `p` replaced by `cell`.
    pub open spec fn with_cell(self, p: Position, cell: Cell) -> Layout
        recommends
            self.contains(p),
    {
        Layout {
            columns: self.columns.update(
                p.column as int,
                self.columns[p.column as int].update(p.row as int, cell),
            ),
        }
    }

    /// The positions in the first `upto` columns that hold `kind`, column by column from
    /// the west, each column from north to south.
    pub open spec fn hits(self, kind: Cell, upto: nat) -> Seq<Position>
        decreases upto,
    {
        if upto == 0 {
            Seq::empty()
        } else {
            self.hits(kind, (upto - 1) as nat) + column_hits(
                self.columns[upto - 1],
                (upto - 1) as usize,
                kind,
                self.columns[upto - 1].len(),
            )
        }
    }

    /// All positions that hold `kind`, in scan order: column by column from the west, each
    /// column from north to south.
    pub open spec fn occurrences(self, kind: Cell) -> Seq<Position> {
        self.hits(kind, self.width())
    }

    /// Where an agent that lands on the teleporter at `here` comes out: the first
    /// teleporter in scan order other than `here`, or `here` itself if there is no other.
    pub open spec fn teleport_target(self, here: Position) -> Position {
        first_other(self.occurrences(Cell::Teleporter), here, 0)
    }

    /// The grid after an agent has landed on `p`: an obstacle at `p` is destroyed and leaves
    /// an empty cell; nothing else changes.
    pub open spec fn after_landing(self, p: Position) -> Layout {
        if self.cell(p) == Cell::Obstacle {
            self.with_cell(p, Cell::Empty)
        } else {
            self
        }
    }

    /// Whether `a` and `b` are the two teleporters of the grid, and its only ones.
    pub open spec fn pairs(self, a: Position, b: Position) -> bool {
        &&& a != b
        &&& self.contains(a)
        &&& self.contains(b)
        &&& self.cell(a) == Cell::Teleporter
        &&& self.cell(b) == Cell::Teleporter
        &&& forall|q: Position| #[trigger] self.cell(q) == Cell::Teleporter ==> q == a || q == b
    }

    /// Whether the grid holds no teleporter, or exactly two.
    pub open spec fn teleporters_paired(self) -> bool {
        self.occurrences(Cell::Teleporter).len() == 0 || self.occurrences(Cell::Teleporter).len()
            == 2
    }
}

/// The hits of a column are exactly its rows below `upto` that hold `kind`, in
/// increasing order of row.
pub proof fn lemma_column_hits(column: Seq<Cell>, x: usize, kind: Cell, upto: nat)
    requires
        upto <= column.len() <= usize::MAX,
    ensures
        forall|i: int|
            0 <= i < column_hits(column, x, kind, upto).len() ==> {
                let p = #[trigger] column_hits(column, x, kind, upto)[i];
                p.column == x && p.row < upto && column[p.row as int] == kind
            },
        forall|i: int, j: int|
            0 <= i < j < column_hits(column, x, kind, upto).len() ==> (#[trigger] column_hits(
                column,
                x,
                kind,
                upto,
            )[i]).row < (#[trigger] column_hits(column, x, kind, upto)[j]).row,
        forall|y: int|
            0 <= y < upto && #[trigger] column[y] == kind ==> column_hits(
                column,
                x,
                kind,
                upto,
            ).contains(Position { column: x, row: y as usize }),
    decreases upto,
{
    if upto > 0 {
        let above = column_hits(column, x, kind, (upto - 1) as nat);
        let all = column_hits(column, x, kind, upto);
        lemma_column_hits(column, x, kind, (upto - 1) as nat);
        assert forall|y: int| 0 <= y < upto && #[trigger] column[y] == kind implies all.contains(
            Position { column: x, row: y as usize },
        ) by {
            let p = Position { column: x, row: y as usize };
            if y < upto - 1 {
                let i = choose|i: int| 0 <= i < above.len() && above[i] == p;
                assert(all[i] == p);
            } else {
                assert(all[all.len() - 1] == p);
            }
        }
    }
}

/// The hits in the first `upto` columns are exactly the positions there that hold `kind`,
/// in scan order.
pub proof fn lemma_hits(layout: Layout, kind: Cell, upto: nat)
    requires
        layout.wf(),
        upto <= layout.width(),
    ensures
        forall|i: int|
            0 <= i < layout.hits(kind, upto).len() ==> {
                let p = #[trigger] layout.hits(kind, upto)[i];
                p.column < upto && p.row < layout.height() && layout.cell(p) == kind
            },
        forall|i: int, j: int|
            0 <= i < j < layout.hits(kind, upto).len() ==> (#[trigger] layout.hits(
                kind,
                upto,
            )[i]).scanned_before(#[trigger] layout.hits(kind, upto)[j]),
        forall|p: Position|
            p.column < upto && p.row < layout.height() && #[trigger] layout.cell(p) == kind
                ==> layout.hits(kind, upto).contains(p),
    decreases upto,
{
    if upto > 0 {
        let x = (upto - 1) as usize;
        let column = layout.columns[upto - 1];
        let before = layout.hits(kind, (upto - 1) as nat);
        let here = column_hits(column, x, kind, column.len());
        let all = layout.hits(kind, upto);
        lemma_hits(layout, kind, (upto - 1) as nat);
        lemma_column_hits(column, x, kind, column.len());
        assert(all == before + here);
        assert forall|i: int| 0 <= i < all.len() implies {
            let p = #[trigger] all[i];
            p.column < upto && p.row < layout.height() && layout.cell(p) == kind
        } by {
            if i < before.len() {
                assert(all[i] == before[i]);
            } else {
                assert(all[i] == here[i - before.len()]);
            }
        }
        assert forall|i: int, j: int| 0 <= i < j < all.len() implies (#[trigger] all[i]).scanned_before(
            #[trigger] all[j],
        ) by {
            if j < before.len() {
                assert(all[i] == before[i] && all[j] == before[j]);
            } else if i < before.len() {
                assert(all[i] == before[i] && all[j] == here[j - before.len()]);
            } else {
                assert(all[i] == here[i - before.len()] && all[j] == here[j - before.len()]);
            }
        }
        assert forall|p: Position|
            p.column < upto && p.row < layout.height() && #[trigger] layout.cell(p)
                == kind implies all.contains(p) by {
            if p.column < upto - 1 {
                let i = choose|i: int| 0 <= i < before.len() && before[i] == p;
                assert(all[i] == p);
            } else {
                assert(column[p.row as int] == kind);
                let q = Position { column: x, row: p.row as int as usize };
                assert(q == p);
                let i = choose|i: int| 0 <= i < here.len() && here[i] == p;
                assert(all[before.len() + i] == p);
            }
        }
    }
}

/// The occurrences of `kind` are exactly the positions of the grid that hold `kind`, each
/// once, in scan order.
pub proof fn lemma_occurrences(layout: Layout, kind: Cell)
    requires
        layout.wf(),
    ensures
        forall|i: int|
            0 <= i < layout.occurrences(kind).len() ==> {
                let p = #[trigger] layout.occurrences(kind)[i];
                layout.contains(p) && layout.cell(p) == kind
            },
        forall|i: int, j: int|
            0 <= i < j < layout.occurrences(kind).len() ==> (#[trigger] layout.occurrences(
                kind,
            )[i]).scanned_before(#[trigger] layout.occurrences(kind)[j]),
        forall|p: Position|
            layout.contains(p) && #[trigger] layout.cell(p) == kind ==> layout.occurrences(
                kind,
            ).contains(p),
{
    lemma_hits(layout, kind, layout.width());
}

/// Replacing the cell at a position of the grid changes that cell and nothing else.
pub proof fn lemma_with_cell(layout: Layout, p: Position, cell: Cell)
    requires
        layout.wf(),
        layout.contains(p),
    ensures
        layout.with_cell(p, cell).wf(),
        layout.with_cell(p, cell).width() == layout.width(),
        layout.with_cell(p, cell).height() == layout.height(),
        layout.with_cell(p, cell).cell(p) == cell,
        forall|q: Position| q != p ==> #[trigger] layout.with_cell(p, cell).cell(q) == layout.cell(q),
{
    let changed = layout.with_cell(p, cell);
    assert(changed.columns[0].len() == layout.columns[0].len());
    assert forall|x: int| 0 <= x < changed.columns.len() implies (#[trigger] changed.columns[x]).len()
        == changed.height() by {
        assert(layout.columns[x].len() == layout.height());
    }
}

} // verus!
