use vstd::prelude::*;

pub mod board;
pub mod piece;

use rand::Rng;

use crate::game::board::Board;
use crate::game::piece::domino::{anticlockwise, clockwise, Domino};
use crate::game::piece::{after_shift, at, inside, is_locked, lowered, Piece};

verus! {

/// One request of the player.
#[derive(Clone, Copy, Debug, PartialEq, Eq, Structural)]
pub enum Action {
    Up,
    Left,
    Right,
    Down,
    Clockwise,
    Anticlockwise,
    /// Drops the piece to where it locks; a piece already locked is merged
    /// into the grid, full rows are cleared and a new piece starts.
    Place,
}

/// A round: the grid and the falling piece.
pub struct GameState {
    pub gameboard: Board,
    pub piece: Domino,
}

/// The piece that starts on `board`.
pub open spec fn spawned(board: &Board) -> Domino {
    Domino {
        cell1: at(board.width / 2 - 1, board.height - 1),
        cell2: at((board.width / 2) as int, board.height - 1),
    }
}

/// The move that the number `code` stands for in a pre-filled round.
pub open spec fn action_for(code: usize) -> Option<Action> {
    if code == 0 {
        Some(Action::Down)
    } else if code == 1 {
        Some(Action::Left)
    } else if code == 2 {
        Some(Action::Right)
    } else if code == 3 {
        Some(Action::Clockwise)
    } else if code == 4 {
        Some(Action::Anticlockwise)
    } else {
        None
    }
}

/// Relies on rand's `thread_rng().gen_range(0..n)`: a number below `n`. It panics
/// on an empty range, which `n > 0` rules out.
#[verifier::external_body]
fn random_below(n: usize) -> (r: usize)
    requires
        n > 0,
    ensures
        r < n,
{
    rand::thread_rng().gen_range(0..n)
}

impl GameState {
    /// The grid has room for a piece, and the piece lies inside it.
    pub open spec fn wf(&self) -> bool {
        &&& self.gameboard.wf()
        &&& self.gameboard.width >= 2
        &&& self.gameboard.height >= 1
        &&& inside(&self.gameboard, self.piece.occupied())
    }

    /// An empty grid of `width` columns and `height` rows with a new piece.
    pub fn new(width: usize, height: usize) -> (r: GameState)
        requires
            width >= 2,
            height >= 1,
        ensures
            r.wf(),
            r.gameboard.width == width,
            r.gameboard.height == height,
            forall|x: int, y: int| r.gameboard.in_bounds(x, y) ==> #[trigger] r.gameboard.empty_at(x, y),
            r.piece == spawned(&r.gameboard),
    {
        let gameboard = Board::new(width, height);
        let piece = Domino::new(&gameboard);
        GameState { gameboard, piece }
    }

    /// The move that a number stands for in a pre-filled round, if any.
    pub fn action_of(code: usize) -> (r: Option<Action>)
        ensures
            r == action_for(code),
    {
        match code {
            0 => Some(Action::Down),
            1 => Some(Action::Left),
            2 => Some(Action::Right),
            3 => Some(Action::Clockwise),
            4 => Some(Action::Anticlockwise),
            _ => None,
        }
    }

    /// Carries out `action`.
    pub fn act(&mut self, action: Action)
        requires
            old(self).wf(),
        ensures
            final(self).wf(),
            final(self).gameboard.width == old(self).gameboard.width,
            final(self).gameboard.height == old(self).gameboard.height,
            action != Action::Place ==> final(self).gameboard == old(self).gameboard,
            action == Action::Up ==> final(self).piece.occupied() == after_shift(
                &old(self).gameboard,
                old(self).piece.occupied(),
                0,
                1,
            ),
            action == Action::Left ==> final(self).piece.occupied() == after_shift(
                &old(self).gameboard,
                old(self).piece.occupied(),
                -1,
                0,
            ),
            action == Action::Right ==> final(self).piece.occupied() == after_shift(
                &old(self).gameboard,
                old(self).piece.occupied(),
                1,
                0,
            ),
            action == Action::Down ==> final(self).piece.occupied() == after_shift(
                &old(self).gameboard,
                old(self).piece.occupied(),
                0,
                -1,
            ),
            action == Action::Clockwise ==> (final(self).piece.cell1, final(self).piece.cell2)
                == clockwise(&old(self).gameboard, old(self).piece.cell1, old(self).piece.cell2),
            action == Action::Anticlockwise ==> (final(self).piece.cell1, final(self).piece.cell2)
                == anticlockwise(&old(self).gameboard, old(self).piece.cell1, old(self).piece.cell2),
            action == Action::Place && is_locked(&old(self).gameboard, old(self).piece.occupied())
                ==> (exists|merged: Board|
                #![trigger merged.merged_from(&old(self).gameboard, &old(self).piece)]
                merged.merged_from(&old(self).gameboard, &old(self).piece)
                    && final(self).gameboard.cleared_from(&merged))
                && final(self).piece == spawned(&final(self).gameboard),
            action == Action::Place && !is_locked(&old(self).gameboard, old(self).piece.occupied())
                ==> final(self).gameboard == old(self).gameboard && is_locked(
                &old(self).gameboard,
                final(self).piece.occupied(),
            ) && exists|d: nat|
                final(self).piece.occupied() == #[trigger] lowered(old(self).piece.occupied(), d)
                    && forall|e: nat|
                    e < d ==> !is_locked(
                        &old(self).gameboard,
                        #[trigger] lowered(old(self).piece.occupied(), e),
                    ),
    {
        match action {
            Action::Up => self.piece.up(&self.gameboard),
            Action::Left => self.piece.left_slide(&self.gameboard),
            Action::Right => self.piece.right_slide(&self.gameboard),
            Action::Down => self.piece.drop(&self.gameboard),
            Action::Clockwise => self.piece.clock_rotation(&self.gameboard),
            Action::Anticlockwise => self.piece.anticlock_rotation(&self.gameboard),
            Action::Place => {
                if self.piece.fix(&self.gameboard) {
                    let ghost before = self.gameboard;
                    let ghost placed = self.piece;
                    self.gameboard.merge(&self.piece);
                    let ghost merged = self.gameboard;
                    self.gameboard.clear_rows();
                    self.piece = Domino::new(&self.gameboard);
                    assert(merged.merged_from(&before, &placed));
                } else {
                    self.piece.hard_drop(&self.gameboard);
                }
            },
        }
    }

    /// Plays `pieces` pieces by random moves: each piece first slides a random
    /// number of columns to one side, then makes random moves, and is placed
    /// as soon as it locks within its second run of moves.
    pub fn prefill(&mut self, pieces: u32)
        requires
            old(self).wf(),
        ensures
            final(self).wf(),
            final(self).gameboard.width == old(self).gameboard.width,
            final(self).gameboard.height == old(self).gameboard.height,
    {
        let ghost width = self.gameboard.width;
        let ghost height = self.gameboard.height;
        let mut n: u32 = 0;
        while n < pieces
            invariant
                self.wf(),
                self.gameboard.width == width,
                self.gameboard.height == height,
            decreases pieces - n,
        {
            let columns = random_below(self.gameboard.width / 2);
            let left = random_below(2) == 1;
            let mut i: usize = 0;
            while i < columns
                invariant
                    self.wf(),
                    self.gameboard.width == width,
                    self.gameboard.height == height,
                decreases columns - i,
            {
                if left {
                    self.act(Action::Left);
                } else {
                    self.act(Action::Right);
                }
                i = i + 1;
            }
            let mut k: usize = 0;
            while k < 100
                invariant
                    self.wf(),
                    self.gameboard.width == width,
                    self.gameboard.height == height,
                decreases 100 - k,
            {
                if let Some(action) = Self::action_of(random_below(5)) {
                    self.act(action);
                }
                k = k + 1;
            }
            let mut k: usize = 0;
            while k < 100
                invariant
                    self.wf(),
                    self.gameboard.width == width,
                    self.gameboard.height == height,
                decreases 100 - k,
            {
                if let Some(action) = Self::action_of(random_below(5)) {
                    self.act(action);
                }
                if self.piece.fix(&self.gameboard) {
                    self.act(Action::Place);
                    break;
                }
                k = k + 1;
            }
            n = n + 1;
        }
    }
}

} // verus!
