use tetris_core::board::{new_board, Board as PlainBoard};
use tetris_core::game::board::{Board, Cell, CellState, GridPosition};
use tetris_core::game::piece::domino::Domino;
use tetris_core::game::piece::Piece;

fn pos(x: usize, y: usize) -> GridPosition {
    GridPosition { x, y }
}

fn fill(board: &mut Board, x: usize, y: usize) {
    board.cell(pos(x, y)).fill();
}

fn is_filled(board: &Board, x: usize, y: usize) -> bool {
    !board.get_cell(pos(x, y)).empty()
}

fn filled_count(board: &Board) -> usize {
    board
        .cells()
        .iter()
        .filter(|c| c.state() == CellState::Filled)
        .count()
}

#[test]
fn fresh_board_is_empty_everywhere() {
    let board = Board::new(5, 3);
    assert_eq!(board.width, 5);
    assert_eq!(board.height, 3);
    for x in 0..5 {
        for y in 0..3 {
            let cell = board.get_cell(pos(x, y));
            assert!(cell.empty());
            assert_eq!(cell.state(), CellState::Empty);
            assert_eq!((cell.x(), cell.y()), (x, y));
        }
    }
}

#[test]
fn one_by_one_board() {
    let mut board = Board::new(1, 1);
    assert!(board.get_cell(pos(0, 0)).empty());
    fill(&mut board, 0, 0);
    assert!(is_filled(&board, 0, 0));
    board.clear_rows();
    assert!(!is_filled(&board, 0, 0));
}

#[test]
fn grid_position_neighbours() {
    let p = GridPosition::new(3, 4);
    assert_eq!(p, pos(3, 4));
    assert_eq!(p.left(), pos(2, 4));
    assert_eq!(p.right(), pos(4, 4));
    assert_eq!(p.up(), pos(3, 5));
    assert_eq!(p.down(), pos(3, 3));
    assert_eq!(GridPosition::from((7, 0)), pos(7, 0));
}

#[test]
fn cell_fill_keeps_position() {
    let mut cell = Cell::new(pos(2, 1));
    assert!(cell.empty());
    cell.fill();
    assert!(!cell.empty());
    assert_eq!(cell.state(), CellState::Filled);
    assert_eq!((cell.x(), cell.y()), (2, 1));
}

#[test]
fn board_neighbour_lookups() {
    let mut board = Board::new(3, 3);
    fill(&mut board, 1, 2);
    fill(&mut board, 0, 1);
    let centre = pos(1, 1);
    assert!(!board.up(centre).empty());
    assert!(board.down(centre).empty());
    assert!(!board.left(centre).empty());
    assert!(board.right(centre).empty());
    assert_eq!((board.up(centre).x(), board.up(centre).y()), (1, 2));
}

#[test]
fn cells_come_column_by_column() {
    let mut board = Board::new(2, 3);
    fill(&mut board, 1, 0);
    let cells = board.cells();
    let order: Vec<(usize, usize)> = cells.iter().map(|c| (c.x(), c.y())).collect();
    assert_eq!(order, vec![(0, 0), (0, 1), (0, 2), (1, 0), (1, 1), (1, 2)]);
    assert_eq!(cells[3].state(), CellState::Filled);
    assert_eq!(filled_count(&board), 1);
}

#[test]
fn cells_mut_changes_in_place() {
    let mut board = Board::new(2, 2);
    for column in board.cells_mut().iter_mut() {
        column[0].fill();
    }
    assert!(is_filled(&board, 0, 0));
    assert!(is_filled(&board, 1, 0));
    assert!(!is_filled(&board, 0, 1));
}

#[test]
fn merge_fills_both_piece_cells() {
    let mut board = Board::new(4, 3);
    let piece = Domino { cell1: pos(1, 0), cell2: pos(1, 1) };
    board.merge(&piece);
    assert!(is_filled(&board, 1, 0));
    assert!(is_filled(&board, 1, 1));
    assert_eq!(filled_count(&board), 2);
    board.merge(&piece);
    assert_eq!(filled_count(&board), 2);
}

#[test]
fn merge_then_clear_one_full_row_below_piece() {
    // Row 0 full, some content in row 1, piece above at row 2.
    let mut board = Board::new(3, 4);
    for x in 0..3 {
        fill(&mut board, x, 0);
    }
    fill(&mut board, 0, 1);
    let piece = Domino { cell1: pos(1, 2), cell2: pos(2, 2) };
    board.merge(&piece);
    let before = filled_count(&board);
    assert_eq!(before, 6);
    board.clear_rows();
    assert_eq!(filled_count(&board), before - 3);
    assert!(is_filled(&board, 0, 0));
    assert!(!is_filled(&board, 1, 0));
    assert!(is_filled(&board, 1, 1));
    assert!(is_filled(&board, 2, 1));
    for x in 0..3 {
        assert!(!is_filled(&board, x, 3));
        assert!(!is_filled(&board, x, 2));
    }
}

#[test]
fn bottom_row_completed_by_piece_is_cleared() {
    let mut board = Board::new(4, 3);
    fill(&mut board, 0, 0);
    fill(&mut board, 3, 0);
    let mut piece = Domino { cell1: pos(1, 2), cell2: pos(2, 2) };
    piece.hard_drop(&board);
    assert_eq!(piece.positions(), vec![pos(1, 0), pos(2, 0)]);
    assert!(piece.fix(&board));
    board.merge(&piece).clear_rows();
    assert_eq!(filled_count(&board), 0);
}

#[test]
fn two_adjacent_full_rows_are_both_cleared() {
    let mut board = Board::new(3, 5);
    for x in 0..3 {
        fill(&mut board, x, 1);
        fill(&mut board, x, 2);
    }
    fill(&mut board, 0, 0);
    fill(&mut board, 2, 3);
    fill(&mut board, 1, 4);
    board.clear_rows();
    assert!(is_filled(&board, 0, 0));
    assert!(!is_filled(&board, 1, 0));
    assert!(is_filled(&board, 2, 1));
    assert!(!is_filled(&board, 0, 1));
    assert!(is_filled(&board, 1, 2));
    assert!(!is_filled(&board, 0, 2));
    for x in 0..3 {
        assert!(!is_filled(&board, x, 3));
        assert!(!is_filled(&board, x, 4));
    }
    assert_eq!(filled_count(&board), 3);
}

#[test]
fn separate_full_rows_are_both_cleared() {
    let mut board = Board::new(2, 4);
    for x in 0..2 {
        fill(&mut board, x, 0);
        fill(&mut board, x, 2);
    }
    fill(&mut board, 1, 1);
    fill(&mut board, 0, 3);
    board.clear_rows();
    assert!(is_filled(&board, 1, 0));
    assert!(!is_filled(&board, 0, 0));
    assert!(is_filled(&board, 0, 1));
    assert!(!is_filled(&board, 1, 1));
    assert_eq!(filled_count(&board), 2);
}

#[test]
fn rows_without_gaps_stay() {
    let mut board = Board::new(3, 3);
    fill(&mut board, 0, 0);
    fill(&mut board, 1, 1);
    board.clear_rows();
    assert!(is_filled(&board, 0, 0));
    assert!(is_filled(&board, 1, 1));
    assert_eq!(filled_count(&board), 2);
}

#[test]
fn plain_board_text() {
    let board = new_board(3, 2);
    let lines = board.text();
    assert_eq!(lines, vec![vec!['-', '-', '-'], vec!['-', '-', '-']]);
    let other = PlainBoard::new(1, 3);
    assert_eq!(other.text().len(), 3);
    assert_eq!(other.text()[0], vec!['-']);
}
