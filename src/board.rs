use vstd::prelude::*;

verus! {

#[derive(Clone, Copy, Debug, PartialEq, Eq, Structural)]
enum CellState {
    Empty,
    Filled,
}

/// A plain grid stored row by row: `cells[y][x]` is the cell at row `y`, column `x`.
pub struct Board {
    width: usize,
    height: usize,
    cells: Vec<Vec<CellState>>,
}

/// `height` rows of `width` empty cells.
fn empty_rows(width: usize, height: usize) -> (r: Vec<Vec<CellState>>)
    ensures
        r@.len() == height,
        forall|y: int| 0 <= y < height ==> (#[trigger] r@[y])@.len() == width,
        forall|y: int, x: int|
            0 <= y < height && 0 <= x < width ==> #[trigger] r@[y]@[x] == CellState::Empty,
{
    let mut rows: Vec<Vec<CellState>> = Vec::new();
    let mut y: usize = 0;
    while y < height
        invariant
            y <= height,
            rows@.len() == y,
            forall|j: int| 0 <= j < y ==> (#[trigger] rows@[j])@.len() == width,
            forall|j: int, x: int|
                0 <= j < y && 0 <= x < width ==> #[trigger] rows@[j]@[x] == CellState::Empty,
        decreases height - y,
    {
        let mut row: Vec<CellState> = Vec::new();
        let mut x: usize = 0;
        while x < width
            invariant
                x <= width,
                row@.len() == x,
                forall|i: int| 0 <= i < x ==> #[trigger] row@[i] == CellState::Empty,
            decreases width - x,
        {
            row.push(CellState::Empty);
            x = x + 1;
        }
        rows.push(row);
        y = y + 1;
    }
    rows
}

/// An all-empty grid of `width` columns and `height` rows.
pub fn new_board(width: usize, height: usize) -> (r: Board)
    ensures
        r.wf(),
        r.width_spec() == width,
        r.height_spec() == height,
        forall|x: int, y: int| 0 <= x < width && 0 <= y < height ==> !#[trigger] r.filled_at(x, y),
{
    Board::new(width, height)
}

impl Board {
    pub closed spec fn width_spec(&self) -> nat {
        self.width as nat
    }

    pub closed spec fn height_spec(&self) -> nat {
        self.height as nat
    }

    /// Whether the cell at column `x`, row `y` is filled.
    pub closed spec fn filled_at(&self, x: int, y: int) -> bool {
        self.cells@[y]@[x] == CellState::Filled
    }

    /// Every row holds `width` cells, and there are `height` rows.
    pub closed spec fn wf(&self) -> bool {
        &&& self.cells@.len() == self.height
        &&& forall|y: int| 0 <= y < self.height ==> (#[trigger] self.cells@[y])@.len() == self.width
    }

    /// An all-empty grid of `width` columns and `height` rows.
    pub fn new(width: usize, height: usize) -> (r: Board)
        ensures
            r.wf(),
            r.width_spec() == width,
            r.height_spec() == height,
            forall|x: int, y: int|
                0 <= x < width && 0 <= y < height ==> !#[trigger] r.filled_at(x, y),
    {
        let cells = empty_rows(width, height);
        Board { width, height, cells }
    }

    /// The grid as text, one line per stored row in storage order: `X` for a
    /// filled cell, `-` for an empty one.
    pub fn text(&self) -> (r: Vec<Vec<char>>)
        requires
            self.wf(),
        ensures
            r@.len() == self.height_spec(),
            forall|y: int| 0 <= y < self.height_spec() ==> (#[trigger] r@[y])@.len() == self.width_spec(),
            forall|y: int, x: int|
                0 <= y < self.height_spec() && 0 <= x < self.width_spec() ==> #[trigger] r@[y]@[x] == if self.filled_at(x, y) {
                    'X'
                } else {
                    '-'
                },
    {
        let mut lines: Vec<Vec<char>> = Vec::new();
        let mut y: usize = 0;
        while y < self.cells.len()
            invariant
                self.wf(),
                y <= self.height,
                lines@.len() == y,
                forall|j: int| 0 <= j < y ==> (#[trigger] lines@[j])@.len() == self.width,
                forall|j: int, x: int|
                    0 <= j < y && 0 <= x < self.width ==> #[trigger] lines@[j]@[x] == if self.filled_at(x, j) {
                        'X'
                    } else {
                        '-'
                    },
            decreases self.height - y,
        {
            let row = &self.cells[y];
            let mut line: Vec<char> = Vec::new();
            let mut x: usize = 0;
            while x < row.len()
                invariant
                    self.wf(),
                    y < self.height,
                    *row == self.cells@[y as int],
                    x <= row.len(),
                    line@.len() == x,
                    forall|i: int| 0 <= i < x ==> #[trigger] line@[i] == if self.filled_at(i, y as int) {
                        'X'
                    } else {
                        '-'
                    },
                decreases row.len() - x,
            {
                let c = match row[x] {
                    CellState::Empty => '-',
                    CellState::Filled => 'X',
                };
                line.push(c);
                x = x + 1;
            }
            lines.push(line);
            y = y + 1;
        }
        lines
    }
}

} // verus!
