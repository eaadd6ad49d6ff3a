use vstd::prelude::*;

pub mod domino;

use crate::game::board::{Board, GridPosition};

verus! {

/// The position `(x, y)`.
pub open spec fn at(x: int, y: int) -> GridPosition {
    GridPosition { x: x as usize, y: y as usize }
}

/// Whether `(x, y)` lies inside the grid and holds an empty cell.
pub open spec fn free(board: &Board, x: int, y: int) -> bool {
    board.in_bounds(x, y) && board.empty_at(x, y)
}

/// Every one of `cells` lies inside the grid.
pub open spec fn inside(board: &Board, cells: Seq<GridPosition>) -> bool {
    forall|i: int| 0 <= i < cells.len() ==> board.in_bounds(#[trigger] cells[i].x as int, cells[i].y as int)
}

/// `cells`, each moved by `dx` columns and `dy` rows.
pub open spec fn shifted(cells: Seq<GridPosition>, dx: int, dy: int) -> Seq<GridPosition> {
    cells.map_values(|p: GridPosition| at(p.x + dx, p.y + dy))
}

/// `cells`, each moved `d` rows down.
pub open spec fn lowered(cells: Seq<GridPosition>, d: nat) -> Seq<GridPosition> {
    shifted(cells, 0, -d)
}

/// Every one of `cells`, moved by `dx` columns and `dy` rows, lands on a free cell.
pub open spec fn can_shift(board: &Board, cells: Seq<GridPosition>, dx: int, dy: int) -> bool {
    forall|i: int| 0 <= i < cells.len() ==> free(board, #[trigger] cells[i].x + dx, cells[i].y + dy)
}

/// Where a move by `dx` columns and `dy` rows takes `cells`: the moved cells where
/// every one of them lands on a free cell, else the cells as they were.
pub open spec fn after_shift(board: &Board, cells: Seq<GridPosition>, dx: int, dy: int) -> Seq<
    GridPosition,
> {
    if can_shift(board, cells, dx, dy) {
        shifted(cells, dx, dy)
    } else {
        cells
    }
}

/// Some one of `cells` stands on the bottom row or right above a filled cell.
pub open spec fn is_locked(board: &Board, cells: Seq<GridPosition>) -> bool {
    exists|i: int|
        0 <= i < cells.len() && ((#[trigger] cells[i]).y == 0 || !board.empty_at(
            cells[i].x as int,
            cells[i].y - 1,
        ))
}

/// A piece that falls through a grid; it reads the grid and never changes it.
pub trait Piece: Sized {
    /// The positions the piece covers.
    spec fn occupied(&self) -> Seq<GridPosition>;

    /// A piece in its starting place at the top of `board`.
    fn new(board: &Board) -> (r: Self)
        requires
            board.wf(),
            board.width >= 2,
            board.height >= 1,
        ensures
            inside(board, r.occupied()),
    ;

    fn positions(&self) -> (r: Vec<GridPosition>)
        ensures
            r@ == self.occupied(),
    ;

    /// Moves one row up where every cell has room, else does nothing.
    fn up(&mut self, board: &Board)
        requires
            board.wf(),
            inside(board, old(self).occupied()),
        ensures
            final(self).occupied() == after_shift(board, old(self).occupied(), 0, 1),
    ;

    /// Moves one column left where every cell has room, else does nothing.
    fn left_slide(&mut self, board: &Board)
        requires
            board.wf(),
            inside(board, old(self).occupied()),
        ensures
            final(self).occupied() == after_shift(board, old(self).occupied(), -1, 0),
    ;

    /// Moves one column right where every cell has room, else does nothing.
    fn right_slide(&mut self, board: &Board)
        requires
            board.wf(),
            inside(board, old(self).occupied()),
        ensures
            final(self).occupied() == after_shift(board, old(self).occupied(), 1, 0),
    ;

    /// Moves one row down where every cell has room, else does nothing.
    fn drop(&mut self, board: &Board)
        requires
            board.wf(),
            inside(board, old(self).occupied()),
        ensures
            final(self).occupied() == after_shift(board, old(self).occupied(), 0, -1),
    ;

    /// Drops row by row until the piece is locked.
    fn hard_drop(&mut self, board: &Board)
        requires
            board.wf(),
            inside(board, old(self).occupied()),
        ensures
            inside(board, final(self).occupied()),
            is_locked(board, final(self).occupied()),
            exists|d: nat|
                final(self).occupied() == #[trigger] lowered(old(self).occupied(), d) && forall|e: nat|
                    e < d ==> !is_locked(board, #[trigger] lowered(old(self).occupied(), e)),
    ;

    /// Turns a quarter clockwise where there is room.
    fn clock_rotation(&mut self, board: &Board)
        requires
            board.wf(),
            inside(board, old(self).occupied()),
        ensures
            inside(board, final(self).occupied()),
    ;

    /// Turns a quarter anticlockwise where there is room.
    fn anticlock_rotation(&mut self, board: &Board)
        requires
            board.wf(),
            inside(board, old(self).occupied()),
        ensures
            inside(board, final(self).occupied()),
    ;

    /// Whether the piece can fall no further.
    fn fix(&self, board: &Board) -> (r: bool)
        requires
            board.wf(),
            inside(board, self.occupied()),
        ensures
            r == is_locked(board, self.occupied()),
    ;
}

} // verus!
