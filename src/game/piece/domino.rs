use vstd::prelude::*;

use crate::game::board::{Board, GridPosition};
use crate::game::piece::{
    after_shift, at, can_shift, free, inside, is_locked, lowered, shifted, Piece,
};

verus! {

/// The two-cell piece.
#[derive(Clone, Copy, Debug, PartialEq, Eq, Structural)]
pub struct Domino {
    pub cell1: GridPosition,
    pub cell2: GridPosition,
}

/// The cells `a` and `b` of a domino in a row, the left one first.
pub open spec fn left_first(a: GridPosition, b: GridPosition) -> (GridPosition, GridPosition) {
    if b.x < a.x {
        (b, a)
    } else {
        (a, b)
    }
}

/// The cells `a` and `b` of a domino in a column, the top one first.
pub open spec fn top_first(a: GridPosition, b: GridPosition) -> (GridPosition, GridPosition) {
    if b.y > a.y {
        (b, a)
    } else {
        (a, b)
    }
}

/// Where a clockwise turn takes the cells `(a, b)` of a domino on `board`.
///
/// In a row, the left cell `l` and the right cell `r`: the right cell goes
/// below `l` where that cell is free, else the left cell goes above `r` where
/// that cell is free. In a column, the top cell `t` and the bottom cell `u`:
/// the top cell goes right of `u` where that is free, else the bottom cell
/// goes left of `t` where that is free. Otherwise nothing moves; the cells come
/// back in the order given by `left_first` or `top_first`.
pub open spec fn clockwise(board: &Board, a: GridPosition, b: GridPosition) -> (
    GridPosition,
    GridPosition,
) {
    if a.y == b.y {
        let (l, r) = left_first(a, b);
        if free(board, l.x as int, l.y - 1) {
            (l, at(l.x as int, l.y - 1))
        } else if free(board, r.x as int, r.y + 1) {
            (at(r.x as int, r.y + 1), r)
        } else {
            (l, r)
        }
    } else if a.x == b.x {
        let (t, u) = top_first(a, b);
        if free(board, u.x + 1, u.y as int) {
            (at(u.x + 1, u.y as int), u)
        } else if free(board, t.x - 1, t.y as int) {
            (t, at(t.x - 1, t.y as int))
        } else {
            (t, u)
        }
    } else {
        (a, b)
    }
}

/// Where an anticlockwise turn takes the cells `(a, b)` of a domino on `board`:
/// the mirror of `clockwise`. In a row, the left cell goes below the right
/// cell `r`, else the right cell goes above the left cell `l`. In a column, the
/// top cell goes left of the bottom cell `u`, else the bottom cell goes right of
/// the top cell `t`; each only where the target is free.
pub open spec fn anticlockwise(board: &Board, a: GridPosition, b: GridPosition) -> (
    GridPosition,
    GridPosition,
) {
    if a.y == b.y {
        let (l, r) = left_first(a, b);
        if free(board, r.x as int, r.y - 1) {
            (at(r.x as int, r.y - 1), r)
        } else if free(board, l.x as int, l.y + 1) {
            (l, at(l.x as int, l.y + 1))
        } else {
            (l, r)
        }
    } else if a.x == b.x {
        let (t, u) = top_first(a, b);
        if free(board, u.x - 1, u.y as int) {
            (at(u.x - 1, u.y as int), u)
        } else if free(board, t.x + 1, t.y as int) {
            (t, at(t.x + 1, t.y as int))
        } else {
            (t, u)
        }
    } else {
        (a, b)
    }
}

/// A domino whose cells lie side by side in one row, inside `board`, on empty cells.
pub open spec fn flat_on(board: &Board, d: Domino) -> bool {
    &&& d.cell1.y == d.cell2.y
    &&& (d.cell1.x + 1 == d.cell2.x || d.cell2.x + 1 == d.cell1.x)
    &&& free(board, d.cell1.x as int, d.cell1.y as int)
    &&& free(board, d.cell2.x as int, d.cell2.y as int)
}

/// A flat domino with room below its left cell and above its right cell, turned
/// clockwise and then back anticlockwise, covers its two cells again, left cell
/// first. This holds where the cell left of the one below its left cell is not
/// free: where it is, the turn back prefers it.
pub proof fn lemma_clockwise_then_back(board: &Board, d: Domino)
    requires
        board.wf(),
        flat_on(board, d),
        free(board, left_first(d.cell1, d.cell2).0.x as int, left_first(d.cell1, d.cell2).0.y - 1),
        free(board, left_first(d.cell1, d.cell2).1.x as int, left_first(d.cell1, d.cell2).1.y + 1),
        !free(board, left_first(d.cell1, d.cell2).0.x - 1, left_first(d.cell1, d.cell2).0.y - 1),
    ensures
        anticlockwise(board, clockwise(board, d.cell1, d.cell2).0, clockwise(board, d.cell1, d.cell2).1)
            == left_first(d.cell1, d.cell2),
{
}

/// A flat domino with room below its right cell and above its left cell, turned
/// anticlockwise and then back clockwise, covers its two cells again, right cell
/// first. This holds where the cell right of the one below its right cell is not
/// free: where it is, the turn back prefers it.
pub proof fn lemma_anticlockwise_then_back(board: &Board, d: Domino)
    requires
        board.wf(),
        flat_on(board, d),
        free(board, left_first(d.cell1, d.cell2).1.x as int, left_first(d.cell1, d.cell2).1.y - 1),
        free(board, left_first(d.cell1, d.cell2).0.x as int, left_first(d.cell1, d.cell2).0.y + 1),
        !free(board, left_first(d.cell1, d.cell2).1.x + 1, left_first(d.cell1, d.cell2).1.y - 1),
    ensures
        clockwise(board, anticlockwise(board, d.cell1, d.cell2).0, anticlockwise(board, d.cell1, d.cell2).1)
            == (left_first(d.cell1, d.cell2).1, left_first(d.cell1, d.cell2).0),
{
}

impl Domino {
    /// Both cells of a domino that lies inside the grid are in bounds.
    proof fn lemma_inside(self, board: &Board)
        requires
            inside(board, self.occupied()),
        ensures
            board.in_bounds(self.cell1.x as int, self.cell1.y as int),
            board.in_bounds(self.cell2.x as int, self.cell2.y as int),
    {
        assert(self.occupied()[0] == self.cell1);
        assert(self.occupied()[1] == self.cell2);
    }

    /// Puts the top or the left cell in `cell1`, as a turn expects.
    fn normalize(&mut self)
        ensures
            old(self).cell1.y == old(self).cell2.y ==> (final(self).cell1, final(self).cell2)
                == left_first(old(self).cell1, old(self).cell2),
            old(self).cell1.y != old(self).cell2.y ==> (final(self).cell1, final(self).cell2)
                == top_first(old(self).cell1, old(self).cell2),
    {
        if self.cell1.y == self.cell2.y {
            if self.cell2.x < self.cell1.x {
                std::mem::swap(&mut self.cell1, &mut self.cell2);
            }
        } else if self.cell2.y > self.cell1.y {
            std::mem::swap(&mut self.cell1, &mut self.cell2);
        }
    }
}

impl Piece for Domino {
    open spec fn occupied(&self) -> Seq<GridPosition> {
        seq![self.cell1, self.cell2]
    }

    /// Lies flat in the top row, `cell1` just left of the middle column.
    fn new(board: &Board) -> (r: Domino)
        ensures
            r.cell1 == at(board.width / 2 - 1, board.height - 1),
            r.cell2 == at((board.width / 2) as int, board.height - 1),
    {
        Domino {
            cell1: GridPosition { x: board.width / 2 - 1, y: board.height - 1 },
            cell2: GridPosition { x: board.width / 2, y: board.height - 1 },
        }
    }

    fn positions(&self) -> (r: Vec<GridPosition>) {
        vec![self.cell1, self.cell2]
    }

    fn left_slide(&mut self, board: &Board) {
        let ghost cells = self.occupied();
        proof {
            self.lemma_inside(board);
        }
        if self.cell1.x == 0 || self.cell2.x == 0 {
            assert(!free(board, cells[0].x - 1, cells[0].y as int) || !free(
                board,
                cells[1].x - 1,
                cells[1].y as int,
            ));
            return;
        }
        if !board.left(self.cell1).empty() || !board.left(self.cell2).empty() {
            assert(!free(board, cells[0].x - 1, cells[0].y as int) || !free(
                board,
                cells[1].x - 1,
                cells[1].y as int,
            ));
            return;
        }
        self.cell1.x = self.cell1.x - 1;
        self.cell2.x = self.cell2.x - 1;
        assert(can_shift(board, cells, -1, 0));
        assert(self.occupied() =~= shifted(cells, -1, 0));
    }

    fn right_slide(&mut self, board: &Board) {
        let ghost cells = self.occupied();
        proof {
            self.lemma_inside(board);
        }
        if self.cell1.x == board.width - 1 || self.cell2.x == board.width - 1 {
            assert(!free(board, cells[0].x + 1, cells[0].y as int) || !free(
                board,
                cells[1].x + 1,
                cells[1].y as int,
            ));
            return;
        }
        if !board.right(self.cell1).empty() || !board.right(self.cell2).empty() {
            assert(!free(board, cells[0].x + 1, cells[0].y as int) || !free(
                board,
                cells[1].x + 1,
                cells[1].y as int,
            ));
            return;
        }
        self.cell1.x = self.cell1.x + 1;
        self.cell2.x = self.cell2.x + 1;
        assert(can_shift(board, cells, 1, 0));
        assert(self.occupied() =~= shifted(cells, 1, 0));
    }

    fn up(&mut self, board: &Board) {
        let ghost cells = self.occupied();
        proof {
            self.lemma_inside(board);
        }
        if self.cell1.y == board.height - 1 || self.cell2.y == board.height - 1 {
            assert(!free(board, cells[0].x as int, cells[0].y + 1) || !free(
                board,
                cells[1].x as int,
                cells[1].y + 1,
            ));
            return;
        }
        if !board.up(self.cell1).empty() || !board.up(self.cell2).empty() {
            assert(!free(board, cells[0].x as int, cells[0].y + 1) || !free(
                board,
                cells[1].x as int,
                cells[1].y + 1,
            ));
            return;
        }
        self.cell1.y = self.cell1.y + 1;
        self.cell2.y = self.cell2.y + 1;
        assert(can_shift(board, cells, 0, 1));
        assert(self.occupied() =~= shifted(cells, 0, 1));
    }

    fn drop(&mut self, board: &Board) {
        let ghost cells = self.occupied();
        proof {
            self.lemma_inside(board);
        }
        if self.cell1.y == 0 || self.cell2.y == 0 {
            assert(!free(board, cells[0].x as int, cells[0].y - 1) || !free(
                board,
                cells[1].x as int,
                cells[1].y - 1,
            ));
            return;
        }
        if !board.down(self.cell1).empty() || !board.down(self.cell2).empty() {
            assert(!free(board, cells[0].x as int, cells[0].y - 1) || !free(
                board,
                cells[1].x as int,
                cells[1].y - 1,
            ));
            return;
        }
        self.cell1.y = self.cell1.y - 1;
        self.cell2.y = self.cell2.y - 1;
        assert(can_shift(board, cells, 0, -1));
        assert(self.occupied() =~= shifted(cells, 0, -1));
    }

    fn hard_drop(&mut self, board: &Board) {
        let ghost start = self.occupied();
        let ghost mut d: nat = 0;
        assert(lowered(start, 0) =~= start);
        loop
            invariant
                board.wf(),
                inside(board, self.occupied()),
                self.occupied() == lowered(start, d),
                start.len() == 2,
                d <= start[0].y,
                d <= start[1].y,
                forall|e: nat| e < d ==> !is_locked(board, #[trigger] lowered(start, e)),
            ensures
                inside(board, self.occupied()),
                is_locked(board, self.occupied()),
                self.occupied() == lowered(start, d),
                forall|e: nat| e < d ==> !is_locked(board, #[trigger] lowered(start, e)),
            decreases self.cell1.y,
        {
            if self.fix(board) {
                break;
            }
            let ghost before = self.occupied();
            self.drop(board);
            proof {
                assert(!is_locked(board, before));
                assert(before[0].y != 0 && board.empty_at(before[0].x as int, before[0].y - 1));
                assert(before[1].y != 0 && board.empty_at(before[1].x as int, before[1].y - 1));
                assert(can_shift(board, before, 0, -1));
                assert(before[0].y == start[0].y - d);
                assert(before[1].y == start[1].y - d);
                assert(lowered(start, d + 1) =~= shifted(before, 0, -1));
                d = d + 1;
            }
        }
    }

    /// Turns as `clockwise` says.
    fn clock_rotation(&mut self, board: &Board)
        ensures
            (final(self).cell1, final(self).cell2) == clockwise(board, old(self).cell1, old(self).cell2),
    {
        proof {
            self.lemma_inside(board);
        }
        if self.cell1.y == self.cell2.y {
            self.normalize();
            if self.cell1.y > 0 && board.down(self.cell1).empty() {
                self.cell2 = self.cell1.down();
            } else if self.cell2.y < board.height - 1 && board.up(self.cell2).empty() {
                self.cell1 = self.cell2.up();
            }
        } else if self.cell1.x == self.cell2.x {
            self.normalize();
            if self.cell2.x < board.width - 1 && board.right(self.cell2).empty() {
                self.cell1 = self.cell2.right();
            } else if self.cell1.x > 0 && board.left(self.cell1).empty() {
                self.cell2 = self.cell1.left();
            }
        }
    }

    /// Turns as `anticlockwise` says.
    fn anticlock_rotation(&mut self, board: &Board)
        ensures
            (final(self).cell1, final(self).cell2) == anticlockwise(
                board,
                old(self).cell1,
                old(self).cell2,
            ),
    {
        proof {
            self.lemma_inside(board);
        }
        if self.cell1.y == self.cell2.y {
            self.normalize();
            if self.cell2.y > 0 && board.down(self.cell2).empty() {
                self.cell1 = self.cell2.down();
            } else if self.cell1.y < board.height - 1 && board.up(self.cell1).empty() {
                self.cell2 = self.cell1.up();
            }
        } else if self.cell1.x == self.cell2.x {
            self.normalize();
            if self.cell2.x > 0 && board.left(self.cell2).empty() {
                self.cell1 = self.cell2.left();
            } else if self.cell1.x < board.width - 1 && board.right(self.cell1).empty() {
                self.cell2 = self.cell1.right();
            }
        }
    }

    fn fix(&self, board: &Board) -> (r: bool) {
        let ghost cells = self.occupied();
        proof {
            self.lemma_inside(board);
        }
        if self.cell1.y == 0 || self.cell2.y == 0 {
            assert(cells[0].y == 0 || cells[1].y == 0);
            return true;
        }
        if !board.down(self.cell1).empty() || !board.down(self.cell2).empty() {
            assert(!board.empty_at(cells[0].x as int, cells[0].y - 1) || !board.empty_at(
                cells[1].x as int,
                cells[1].y - 1,
            ));
            return true;
        }
        assert(!is_locked(board, cells)) by {
            assert forall|i: int| 0 <= i < cells.len() implies !(#[trigger] cells[i].y == 0
                || !board.empty_at(cells[i].x as int, cells[i].y - 1)) by {
                assert(i == 0 || i == 1);
            }
        }
        false
    }
}

} // verus!
