use vstd::prelude::*;

use crate::game::piece::domino::Domino;

verus! {

/// What a grid cell holds.
#[derive(Clone, Copy, Debug, PartialEq, Eq, Structural)]
pub enum CellState {
    Empty,
    Filled,
}

/// A column `x` and a row `y`; row 0 is the bottom of the grid.
#[derive(Clone, Copy, Debug, PartialEq, Eq, Structural)]
pub struct GridPosition {
    pub x: usize,
    pub y: usize,
}

impl GridPosition {
    /// A position from signed coordinates, converted as `as usize` converts.
    pub fn new(x: i32, y: i32) -> (r: GridPosition)
        ensures
            r.x == x as usize,
            r.y == y as usize,
    {
        GridPosition { x: x as usize, y: y as usize }
    }

    pub fn left(&self) -> (r: GridPosition)
        requires
            self.x > 0,
        ensures
            r == (GridPosition { x: (self.x - 1) as usize, y: self.y }),
    {
        GridPosition { x: self.x - 1, y: self.y }
    }

    pub fn right(&self) -> (r: GridPosition)
        requires
            self.x < usize::MAX,
        ensures
            r == (GridPosition { x: (self.x + 1) as usize, y: self.y }),
    {
        GridPosition { x: self.x + 1, y: self.y }
    }

    pub fn up(&self) -> (r: GridPosition)
        requires
            self.y < usize::MAX,
        ensures
            r == (GridPosition { x: self.x, y: (self.y + 1) as usize }),
    {
        GridPosition { x: self.x, y: self.y + 1 }
    }

    pub fn down(&self) -> (r: GridPosition)
        requires
            self.y > 0,
        ensures
            r == (GridPosition { x: self.x, y: (self.y - 1) as usize }),
    {
        GridPosition { x: self.x, y: self.y - 1 }
    }
}

impl From<(i32, i32)> for GridPosition {
    fn from(coords: (i32, i32)) -> (r: GridPosition) {
        GridPosition::new(coords.0, coords.1)
    }
}

impl vstd::std_specs::convert::FromSpecImpl<(i32, i32)> for GridPosition {
    open spec fn obeys_from_spec() -> bool {
        true
    }

    open spec fn from_spec(coords: (i32, i32)) -> GridPosition {
        GridPosition { x: coords.0 as usize, y: coords.1 as usize }
    }
}

/// One cell of the grid: its state and the position it stands at.
#[derive(Clone, Copy, Debug, PartialEq, Eq, Structural)]
pub struct Cell {
    state: CellState,
    position: GridPosition,
}

impl Cell {
    pub closed spec fn state_spec(self) -> CellState {
        self.state
    }

    pub closed spec fn position_spec(self) -> GridPosition {
        self.position
    }

    /// An empty cell at `position`.
    pub fn new(position: GridPosition) -> (r: Cell)
        ensures
            r.state_spec() == CellState::Empty,
            r.position_spec() == position,
    {
        Cell { state: CellState::Empty, position }
    }

    pub fn state(&self) -> (r: CellState)
        ensures
            r == self.state_spec(),
    {
        self.state
    }

    pub fn empty(&self) -> (r: bool)
        ensures
            r == (self.state_spec() == CellState::Empty),
    {
        matches!(self.state, CellState::Empty)
    }

    pub fn x(&self) -> (r: usize)
        ensures
            r == self.position_spec().x,
    {
        self.position.x
    }

    pub fn y(&self) -> (r: usize)
        ensures
            r == self.position_spec().y,
    {
        self.position.y
    }

    pub fn fill(&mut self)
        ensures
            final(self).state_spec() == CellState::Filled,
            final(self).position_spec() == old(self).position_spec(),
    {
        self.state = CellState::Filled;
    }

    fn set_state(&mut self, state: CellState)
        ensures
            final(self).state_spec() == state,
            final(self).position_spec() == old(self).position_spec(),
    {
        self.state = state;
    }
}

/// Every cell of `row` is filled.
pub open spec fn is_full(row: Seq<CellState>) -> bool {
    forall|i: int| 0 <= i < row.len() ==> #[trigger] row[i] == CellState::Filled
}

/// How many cells of `row` are filled.
pub open spec fn count_in_row(row: Seq<CellState>) -> nat
    decreases row.len(),
{
    if row.len() == 0 {
        0
    } else {
        count_in_row(row.drop_last()) + if row.last() == CellState::Filled {
            1nat
        } else {
            0nat
        }
    }
}

/// How many cells of `rows` are filled.
pub open spec fn count_in_rows(rows: Seq<Seq<CellState>>) -> nat
    decreases rows.len(),
{
    if rows.len() == 0 {
        0
    } else {
        count_in_rows(rows.drop_last()) + count_in_row(rows.last())
    }
}

/// A full row counts all its cells.
proof fn lemma_count_full(row: Seq<CellState>)
    requires
        is_full(row),
    ensures
        count_in_row(row) == row.len(),
    decreases row.len(),
{
    if row.len() > 0 {
        lemma_count_full(row.drop_last());
    }
}

/// A row with no filled cell counts none.
proof fn lemma_count_empty(row: Seq<CellState>)
    requires
        forall|i: int| 0 <= i < row.len() ==> #[trigger] row[i] == CellState::Empty,
    ensures
        count_in_row(row) == 0,
    decreases row.len(),
{
    if row.len() > 0 {
        lemma_count_empty(row.drop_last());
    }
}

/// Taking out row `k` takes its cells out of the count.
proof fn lemma_count_remove(rows: Seq<Seq<CellState>>, k: int)
    requires
        0 <= k < rows.len(),
    ensures
        count_in_rows(rows.remove(k)) + count_in_row(rows[k]) == count_in_rows(rows),
    decreases rows.len(),
{
    if k < rows.len() - 1 {
        let shorter = rows.drop_last();
        lemma_count_remove(shorter, k);
        assert(rows.remove(k).drop_last() =~= shorter.remove(k));
        assert(rows.remove(k).last() == rows.last());
    } else {
        assert(rows.remove(k) =~= rows.drop_last());
    }
}

/// Where exactly the row at `k` fails `keep`, filtering by `keep` takes out that row.
proof fn lemma_filter_one_out(rows: Seq<Seq<CellState>>, k: int)
    requires
        0 <= k < rows.len(),
        !row_stays()(rows[k]),
        forall|i: int| 0 <= i < rows.len() && i != k ==> #[trigger] row_stays()(rows[i]),
    ensures
        rows.filter(row_stays()) == rows.remove(k),
    decreases rows.len(),
{
    reveal(Seq::filter);
    if k < rows.len() - 1 {
        let shorter = rows.drop_last();
        assert(row_stays()(shorter[k]) == row_stays()(rows[k]));
        assert forall|i: int| 0 <= i < shorter.len() && i != k implies #[trigger] row_stays()(shorter[i]) by {
            assert(shorter[i] == rows[i]);
        }
        lemma_filter_one_out(shorter, k);
        assert(row_stays()(rows.last()));
        assert(rows.remove(k) =~= shorter.remove(k).push(rows.last()));
    } else {
        let shorter = rows.drop_last();
        assert(shorter.filter(row_stays()) =~= shorter) by {
            lemma_filter_all_stay(shorter);
        }
        assert(rows.remove(k) =~= shorter);
    }
}

/// Where every row passes, filtering keeps them all.
proof fn lemma_filter_all_stay(rows: Seq<Seq<CellState>>)
    requires
        forall|i: int| 0 <= i < rows.len() ==> #[trigger] row_stays()(rows[i]),
    ensures
        rows.filter(row_stays()) == rows,
    decreases rows.len(),
{
    reveal(Seq::filter);
    if rows.len() > 0 {
        let shorter = rows.drop_last();
        assert forall|i: int| 0 <= i < shorter.len() implies #[trigger] row_stays()(shorter[i]) by {
            assert(shorter[i] == rows[i]);
        }
        lemma_filter_all_stay(shorter);
        assert(row_stays()(rows.last()));
        assert(shorter.push(rows.last()) =~= rows);
    }
}

/// The test that keeps a row through a clearing: it is not full.
pub open spec fn row_stays() -> spec_fn(Seq<CellState>) -> bool {
    |row: Seq<CellState>| !is_full(row)
}

/// A grid of `width` columns and `height` rows, stored column by column:
/// `cells[x][y]` is the cell at column `x`, row `y`.
pub struct Board {
    pub width: usize,
    pub height: usize,
    pub cells: Vec<Vec<Cell>>,
}

impl Board {
    /// The cell at column `x`, row `y`.
    pub open spec fn cell_spec(&self, x: int, y: int) -> Cell {
        self.cells@[x]@[y]
    }

    /// Every position of the grid has exactly one cell, which knows its position.
    pub open spec fn wf(&self) -> bool {
        &&& self.cells@.len() == self.width
        &&& forall|x: int| 0 <= x < self.width ==> (#[trigger] self.cells@[x])@.len() == self.height
        &&& forall|x: int, y: int|
            0 <= x < self.width && 0 <= y < self.height ==> (#[trigger] self.cell_spec(x, y)).position_spec()
                == (GridPosition { x: x as usize, y: y as usize })
    }

    pub open spec fn in_bounds(&self, x: int, y: int) -> bool {
        0 <= x < self.width && 0 <= y < self.height
    }

    pub open spec fn state_at(&self, x: int, y: int) -> CellState {
        self.cell_spec(x, y).state_spec()
    }

    pub open spec fn empty_at(&self, x: int, y: int) -> bool {
        self.state_at(x, y) == CellState::Empty
    }

    /// The same grid, with the state at every position but `(px, py)` kept.
    pub open spec fn same_but(&self, other: &Board, px: int, py: int) -> bool {
        &&& self.width == other.width
        &&& self.height == other.height
        &&& forall|x: int, y: int|
            self.in_bounds(x, y) && !(x == px && y == py) ==> #[trigger] self.state_at(x, y)
                == other.state_at(x, y)
    }

    /// The columns of the grid, from the left; each from the bottom up.
    pub open spec fn columns(&self) -> Seq<Seq<Cell>> {
        Seq::new(self.width as nat, |x: int| self.cells@[x]@)
    }

    /// The states of row `y`, from left to right.
    pub open spec fn row(&self, y: int) -> Seq<CellState> {
        Seq::new(self.width as nat, |x: int| self.state_at(x, y))
    }

    /// The rows of the grid, from the bottom up.
    pub open spec fn rows(&self) -> Seq<Seq<CellState>> {
        Seq::new(self.height as nat, |y: int| self.row(y))
    }

    /// The rows that are not full, from the bottom up.
    pub open spec fn kept_rows(&self) -> Seq<Seq<CellState>> {
        self.rows().filter(row_stays())
    }

    /// The grid after the removal of every full row: the rows that were not
    /// full come down, in their order, and empty rows fill the top.
    pub open spec fn cleared_from(&self, old: &Board) -> bool {
        &&& self.width == old.width
        &&& self.height == old.height
        &&& forall|x: int, y: int|
            self.in_bounds(x, y) ==> #[trigger] self.state_at(x, y) == if y < old.kept_rows().len() {
                old.kept_rows()[y][x]
            } else {
                CellState::Empty
            }
    }

    /// The grid `old` with the two cells of `piece` filled.
    pub open spec fn merged_from(&self, old: &Board, piece: &Domino) -> bool {
        &&& self.width == old.width
        &&& self.height == old.height
        &&& forall|x: int, y: int|
            self.in_bounds(x, y) ==> #[trigger] self.state_at(x, y) == if (x == piece.cell1.x && y
                == piece.cell1.y) || (x == piece.cell2.x && y == piece.cell2.y) {
                CellState::Filled
            } else {
                old.state_at(x, y)
            }
    }

    /// How many cells of the grid are filled.
    pub open spec fn filled_count(&self) -> nat {
        count_in_rows(self.rows())
    }

    /// An all-empty grid of `width` columns and `height` rows.
    pub fn new(width: usize, height: usize) -> (r: Board)
        requires
            width > 0,
            height > 0,
        ensures
            r.wf(),
            r.width == width,
            r.height == height,
            forall|x: int, y: int| r.in_bounds(x, y) ==> #[trigger] r.empty_at(x, y),
    {
        let mut cells: Vec<Vec<Cell>> = Vec::new();
        let mut col: usize = 0;
        while col < width
            invariant
                col <= width,
                cells@.len() == col,
                forall|x: int| 0 <= x < col ==> (#[trigger] cells@[x])@.len() == height,
                forall|x: int, y: int|
                    0 <= x < col && 0 <= y < height ==> (#[trigger] cells@[x]@[y]).position_spec()
                        == (GridPosition { x: x as usize, y: y as usize }) && cells@[x]@[y].state_spec()
                        == CellState::Empty,
            decreases width - col,
        {
            let mut column: Vec<Cell> = Vec::new();
            let mut row: usize = 0;
            while row < height
                invariant
                    row <= height,
                    column@.len() == row,
                    forall|y: int|
                        0 <= y < row ==> (#[trigger] column@[y]).position_spec() == (GridPosition {
                            x: col,
                            y: y as usize,
                        }) && column@[y].state_spec() == CellState::Empty,
                decreases height - row,
            {
                column.push(Cell::new(GridPosition { x: col, y: row }));
                row = row + 1;
            }
            cells.push(column);
            col = col + 1;
        }
        Board { width, height, cells }
    }

    /// The cell at `pos`.
    pub fn get_cell(&self, pos: GridPosition) -> (r: &Cell)
        requires
            self.wf(),
            self.in_bounds(pos.x as int, pos.y as int),
        ensures
            *r == self.cell_spec(pos.x as int, pos.y as int),
    {
        &self.cells[pos.x][pos.y]
    }

    /// The cell at `pos`, to change in place.
    pub fn cell(&mut self, pos: GridPosition) -> (r: &mut Cell)
        requires
            old(self).wf(),
            old(self).in_bounds(pos.x as int, pos.y as int),
        ensures
            *r == old(self).cell_spec(pos.x as int, pos.y as int),
            final(self).width == old(self).width,
            final(self).height == old(self).height,
            final(self).cell_spec(pos.x as int, pos.y as int) == *final(r),
            forall|x: int, y: int|
                old(self).in_bounds(x, y) && !(x == pos.x && y == pos.y) ==> #[trigger] final(self).cell_spec(x, y)
                    == old(self).cell_spec(x, y),
            final(self).cells@.len() == old(self).cells@.len(),
            forall|x: int|
                0 <= x < old(self).width ==> (#[trigger] final(self).cells@[x])@.len() == old(
                    self,
                ).cells@[x]@.len(),
    {
        &mut self.cells[pos.x][pos.y]
    }

    /// Every cell, column by column from the left, each column from the bottom up.
    pub fn cells(&self) -> (r: Vec<Cell>)
        requires
            self.wf(),
        ensures
            r@ == self.columns().flatten(),
    {
        let mut out: Vec<Cell> = Vec::new();
        let mut x: usize = 0;
        while x < self.width
            invariant
                self.wf(),
                x <= self.width,
                out@ == self.columns().subrange(0, x as int).flatten(),
            decreases self.width - x,
        {
            let column = &self.cells[x];
            let mut y: usize = 0;
            while y < column.len()
                invariant
                    self.wf(),
                    x < self.width,
                    *column == self.cells@[x as int],
                    y <= column.len(),
                    out@ == self.columns().subrange(0, x as int).flatten() + column@.subrange(0, y as int),
                decreases column.len() - y,
            {
                out.push(column[y]);
                y = y + 1;
                assert(column@.subrange(0, y as int) =~= column@.subrange(0, y - 1).push(column@[y - 1]));
            }
            proof {
                let done = self.columns().subrange(0, x as int);
                assert(self.columns().subrange(0, x + 1) =~= done.push(column@));
                done.lemma_flatten_push(column@);
                assert(column@.subrange(0, y as int) =~= column@);
            }
            x = x + 1;
        }
        assert(self.columns().subrange(0, self.width as int) =~= self.columns());
        out
    }

    /// The columns of cells, to change in place; the dimensions stay.
    pub fn cells_mut(&mut self) -> (r: &mut Vec<Vec<Cell>>)
        ensures
            *r == old(self).cells,
            final(self).width == old(self).width,
            final(self).height == old(self).height,
            final(self).cells == *final(r),
    {
        &mut self.cells
    }

    /// The cell above `pos`.
    pub fn up(&self, pos: GridPosition) -> (r: &Cell)
        requires
            self.wf(),
            self.in_bounds(pos.x as int, pos.y + 1),
        ensures
            *r == self.cell_spec(pos.x as int, pos.y + 1),
    {
        self.get_cell(pos.up())
    }

    /// The cell below `pos`.
    pub fn down(&self, pos: GridPosition) -> (r: &Cell)
        requires
            self.wf(),
            self.in_bounds(pos.x as int, pos.y - 1),
        ensures
            *r == self.cell_spec(pos.x as int, pos.y - 1),
    {
        self.get_cell(pos.down())
    }

    /// The cell to the left of `pos`.
    pub fn left(&self, pos: GridPosition) -> (r: &Cell)
        requires
            self.wf(),
            self.in_bounds(pos.x - 1, pos.y as int),
        ensures
            *r == self.cell_spec(pos.x - 1, pos.y as int),
    {
        self.get_cell(pos.left())
    }

    /// The cell to the right of `pos`.
    pub fn right(&self, pos: GridPosition) -> (r: &Cell)
        requires
            self.wf(),
            self.in_bounds(pos.x + 1, pos.y as int),
        ensures
            *r == self.cell_spec(pos.x + 1, pos.y as int),
    {
        self.get_cell(pos.right())
    }

    /// Sets the cell at `pos` to `state`.
    fn set_state_at(&mut self, pos: GridPosition, state: CellState)
        requires
            old(self).wf(),
            old(self).in_bounds(pos.x as int, pos.y as int),
        ensures
            final(self).wf(),
            final(self).state_at(pos.x as int, pos.y as int) == state,
            final(self).same_but(old(self), pos.x as int, pos.y as int),
    {
        self.cell(pos).set_state(state);
    }

    /// Fills the cell at `pos`.
    fn fill(&mut self, pos: GridPosition) -> (r: &mut Self)
        requires
            old(self).wf(),
            old(self).in_bounds(pos.x as int, pos.y as int),
        ensures
            r.wf(),
            r.state_at(pos.x as int, pos.y as int) == CellState::Filled,
            r.same_but(old(self), pos.x as int, pos.y as int),
            *final(self) == *final(r),
    {
        self.cell(pos).fill();
        self
    }

    /// Fills the two cells of `piece`.
    pub fn merge(&mut self, piece: &Domino) -> (r: &mut Self)
        requires
            old(self).wf(),
            old(self).in_bounds(piece.cell1.x as int, piece.cell1.y as int),
            old(self).in_bounds(piece.cell2.x as int, piece.cell2.y as int),
        ensures
            r.wf(),
            r.width == old(self).width,
            r.height == old(self).height,
            r.merged_from(old(self), piece),
            *final(self) == *final(r),
    {
        self.fill(piece.cell1);
        self.fill(piece.cell2);
        self
    }

    /// Whether every cell of row `y` is filled.
    fn row_is_full(&self, y: usize) -> (r: bool)
        requires
            self.wf(),
            y < self.height,
        ensures
            r == is_full(self.row(y as int)),
    {
        let mut x: usize = 0;
        while x < self.width
            invariant
                self.wf(),
                y < self.height,
                x <= self.width,
                forall|i: int| 0 <= i < x ==> #[trigger] self.state_at(i, y as int) == CellState::Filled,
            decreases self.width - x,
        {
            if self.cells[x][y].empty() {
                assert(self.row(y as int)[x as int] == CellState::Empty);
                return false;
            }
            x = x + 1;
        }
        assert forall|i: int| 0 <= i < self.row(y as int).len() implies #[trigger] self.row(
            y as int,
        )[i] == CellState::Filled by {
            assert(self.state_at(i, y as int) == CellState::Filled);
        }
        true
    }

    /// Copies the states of row `from` into row `to`.
    fn copy_row(&mut self, from: usize, to: usize)
        requires
            old(self).wf(),
            from < old(self).height,
            to < old(self).height,
        ensures
            final(self).wf(),
            final(self).width == old(self).width,
            final(self).height == old(self).height,
            forall|x: int, y: int|
                old(self).in_bounds(x, y) ==> #[trigger] final(self).state_at(x, y) == if y == to {
                    old(self).state_at(x, from as int)
                } else {
                    old(self).state_at(x, y)
                },
    {
        let ghost start = *self;
        let mut x: usize = 0;
        while x < self.width
            invariant
                self.wf(),
                self.width == start.width,
                self.height == start.height,
                start.wf(),
                from < start.height,
                to < start.height,
                x <= self.width,
                forall|i: int, y: int|
                    start.in_bounds(i, y) ==> #[trigger] self.state_at(i, y) == if y == to && i < x {
                        start.state_at(i, from as int)
                    } else {
                        start.state_at(i, y)
                    },
            decreases self.width - x,
        {
            let state = self.cells[x][from].state();
            let ghost before = *self;
            self.set_state_at(GridPosition { x, y: to }, state);
            assert forall|i: int, y: int| start.in_bounds(i, y) implies #[trigger] self.state_at(i, y)
                == if y == to && i <= x {
                start.state_at(i, from as int)
            } else {
                start.state_at(i, y)
            } by {
                if !(i == x && y == to) {
                    assert(self.state_at(i, y) == before.state_at(i, y));
                } else {
                    assert(before.state_at(i, from as int) == start.state_at(i, from as int));
                }
            }
            x = x + 1;
        }
    }

    /// Empties row `y`.
    fn empty_row(&mut self, y: usize)
        requires
            old(self).wf(),
            y < old(self).height,
        ensures
            final(self).wf(),
            final(self).width == old(self).width,
            final(self).height == old(self).height,
            forall|i: int, j: int|
                old(self).in_bounds(i, j) ==> #[trigger] final(self).state_at(i, j) == if j == y {
                    CellState::Empty
                } else {
                    old(self).state_at(i, j)
                },
    {
        let ghost start = *self;
        let mut x: usize = 0;
        while x < self.width
            invariant
                self.wf(),
                self.width == start.width,
                self.height == start.height,
                y < start.height,
                x <= self.width,
                forall|i: int, j: int|
                    start.in_bounds(i, j) ==> #[trigger] self.state_at(i, j) == if j == y && i < x {
                        CellState::Empty
                    } else {
                        start.state_at(i, j)
                    },
            decreases self.width - x,
        {
            self.set_state_at(GridPosition { x, y }, CellState::Empty);
            x = x + 1;
        }
    }

    /// Removes every full row: the other rows come down in their order and
    /// empty rows fill the top. All full rows go in one call, adjacent or not.
    pub fn clear_rows(&mut self) -> (r: &mut Self)
        requires
            old(self).wf(),
        ensures
            r.wf(),
            r.cleared_from(old(self)),
            *final(self) == *final(r),
    {
        // Rows are read from the bottom up; each row that stays is copied down
        // to the lowest row not yet written, and the rows above those are emptied.
        let ghost start = *self;
        let mut kept: usize = 0;
        let mut y: usize = 0;
        while y < self.height
            invariant
                self.wf(),
                start.wf(),
                self.width == start.width,
                self.height == start.height,
                kept <= y <= self.height,
                kept == start.rows().subrange(0, y as int).filter(row_stays()).len(),
                forall|i: int, j: int|
                    0 <= i < start.width && 0 <= j < kept ==> #[trigger] self.state_at(i, j)
                        == start.rows().subrange(0, y as int).filter(row_stays())[j][i],
                forall|i: int, j: int|
                    0 <= i < start.width && y <= j < start.height ==> #[trigger] self.state_at(i, j)
                        == start.state_at(i, j),
            decreases self.height - y,
        {
            let ghost prefix = start.rows().subrange(0, y as int);
            let ghost next = start.rows().subrange(0, y as int + 1);
            assert(next.drop_last() =~= prefix);
            assert(next.last() == start.rows()[y as int]);
            let full = self.row_is_full(y);
            assert(self.row(y as int) =~= start.row(y as int));
            if !full {
                let ghost before = *self;
                self.copy_row(y, kept);
                assert(next.filter(row_stays()) == prefix.filter(row_stays()).push(start.rows()[y as int])) by {
                    reveal(Seq::filter);
                    assert(row_stays()(next.last()));
                }
                kept = kept + 1;
                assert forall|i: int, j: int|
                    0 <= i < start.width && 0 <= j < kept implies #[trigger] self.state_at(i, j)
                        == next.filter(row_stays())[j][i] by {
                    if j == kept - 1 {
                        assert(before.state_at(i, y as int) == start.state_at(i, y as int));
                    }
                }
            } else {
                assert(next.filter(row_stays()) == prefix.filter(row_stays())) by {
                    reveal(Seq::filter);
                }
            }
            y = y + 1;
        }
        assert(start.rows().subrange(0, start.height as int) =~= start.rows());
        let mut top: usize = kept;
        while top < self.height
            invariant
                self.wf(),
                start.wf(),
                self.width == start.width,
                self.height == start.height,
                kept <= top <= self.height,
                kept == start.kept_rows().len(),
                forall|i: int, j: int|
                    0 <= i < start.width && 0 <= j < kept ==> #[trigger] self.state_at(i, j)
                        == start.kept_rows()[j][i],
                forall|i: int, j: int|
                    0 <= i < start.width && kept <= j < top ==> #[trigger] self.state_at(i, j)
                        == CellState::Empty,
            decreases self.height - top,
        {
            self.empty_row(top);
            top = top + 1;
        }
        self
    }
}

/// Merging a piece and then clearing rows, where the merged grid has exactly one
/// full row `k`: the rows below `k` stay, every row above it comes down by one,
/// the top row is empty, and the grid holds `width` filled cells fewer than
/// after the merge.
pub proof fn lemma_merge_then_clear_one_row(
    start: &Board,
    piece: &Domino,
    merged: &Board,
    cleared: &Board,
    k: int,
)
    requires
        start.wf(),
        start.in_bounds(piece.cell1.x as int, piece.cell1.y as int),
        start.in_bounds(piece.cell2.x as int, piece.cell2.y as int),
        merged.merged_from(start, piece),
        cleared.cleared_from(merged),
        0 <= k < merged.height,
        is_full(merged.row(k)),
        forall|y: int| 0 <= y < merged.height && y != k ==> !is_full(#[trigger] merged.row(y)),
    ensures
        forall|x: int, y: int|
            cleared.in_bounds(x, y) ==> #[trigger] cleared.state_at(x, y) == if y < k {
                merged.state_at(x, y)
            } else if y < cleared.height - 1 {
                merged.state_at(x, y + 1)
            } else {
                CellState::Empty
            },
        cleared.filled_count() + merged.width == merged.filled_count(),
{
    let rows = merged.rows();
    assert forall|i: int| 0 <= i < rows.len() && i != k implies #[trigger] row_stays()(rows[i]) by {
        assert(rows[i] == merged.row(i));
    }
    lemma_filter_one_out(rows, k);
    let kept = rows.remove(k);
    assert(merged.kept_rows() == kept);
    let blank = Seq::new(merged.width as nat, |x: int| CellState::Empty);
    assert(cleared.rows() =~= kept.push(blank)) by {
        assert forall|y: int| 0 <= y < cleared.height implies #[trigger] cleared.rows()[y] == kept.push(blank)[y] by {
            assert(cleared.rows()[y] =~= kept.push(blank)[y]);
        }
    }
    lemma_count_remove(rows, k);
    lemma_count_full(rows[k]);
    lemma_count_empty(blank);
    assert(kept.push(blank).drop_last() =~= kept);
}

} // verus!
