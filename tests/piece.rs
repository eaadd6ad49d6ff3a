use tetris_core::game::board::{Board, GridPosition};
use tetris_core::game::piece::domino::Domino;
use tetris_core::game::piece::Piece;
use tetris_core::game::{Action, GameState};

fn pos(x: usize, y: usize) -> GridPosition {
    GridPosition { x, y }
}

fn fill(board: &mut Board, x: usize, y: usize) {
    board.cell(pos(x, y)).fill();
}

fn domino(a: (usize, usize), b: (usize, usize)) -> Domino {
    Domino { cell1: pos(a.0, a.1), cell2: pos(b.0, b.1) }
}

fn cells(piece: &Domino) -> Vec<GridPosition> {
    piece.positions()
}

#[test]
fn spawn_is_centred_in_top_row() {
    let board = Board::new(10, 20);
    let piece = Domino::new(&board);
    assert_eq!(cells(&piece), vec![pos(4, 19), pos(5, 19)]);
    let board = Board::new(5, 3);
    let piece = Domino::new(&board);
    assert_eq!(cells(&piece), vec![pos(1, 2), pos(2, 2)]);
}

#[test]
fn drop_on_four_by_two_board() {
    let board = Board::new(4, 2);
    let mut piece = Domino::new(&board);
    assert_eq!(cells(&piece), vec![pos(1, 1), pos(2, 1)]);
    assert!(!piece.fix(&board));
    piece.drop(&board);
    assert_eq!(cells(&piece), vec![pos(1, 0), pos(2, 0)]);
    assert!(piece.fix(&board));
    piece.drop(&board);
    assert_eq!(cells(&piece), vec![pos(1, 0), pos(2, 0)]);
}

#[test]
fn slides_stop_at_edges() {
    let board = Board::new(3, 3);
    let mut piece = domino((0, 1), (1, 1));
    piece.left_slide(&board);
    assert_eq!(cells(&piece), vec![pos(0, 1), pos(1, 1)]);
    piece.right_slide(&board);
    assert_eq!(cells(&piece), vec![pos(1, 1), pos(2, 1)]);
    piece.right_slide(&board);
    assert_eq!(cells(&piece), vec![pos(1, 1), pos(2, 1)]);
    piece.up(&board);
    assert_eq!(cells(&piece), vec![pos(1, 2), pos(2, 2)]);
    piece.up(&board);
    assert_eq!(cells(&piece), vec![pos(1, 2), pos(2, 2)]);
    piece.left_slide(&board);
    assert_eq!(cells(&piece), vec![pos(0, 2), pos(1, 2)]);
}

#[test]
fn moves_into_filled_cells_do_nothing() {
    let mut board = Board::new(4, 4);
    fill(&mut board, 0, 1);
    fill(&mut board, 3, 2);
    fill(&mut board, 2, 0);
    fill(&mut board, 1, 3);
    let mut piece = domino((1, 1), (1, 2));
    piece.left_slide(&board);
    assert_eq!(cells(&piece), vec![pos(1, 1), pos(1, 2)]);
    piece.up(&board);
    assert_eq!(cells(&piece), vec![pos(1, 1), pos(1, 2)]);
    let mut flat = domino((1, 1), (2, 1));
    flat.drop(&board);
    assert_eq!(cells(&flat), vec![pos(1, 1), pos(2, 1)]);
    let mut flat = domino((1, 2), (2, 2));
    flat.right_slide(&board);
    assert_eq!(cells(&flat), vec![pos(1, 2), pos(2, 2)]);
    piece.right_slide(&board);
    assert_eq!(cells(&piece), vec![pos(2, 1), pos(2, 2)]);
}

#[test]
fn locked_at_bottom_or_on_filled_cell() {
    let mut board = Board::new(4, 4);
    assert!(domino((0, 0), (1, 0)).fix(&board));
    assert!(domino((3, 0), (3, 1)).fix(&board));
    assert!(!domino((1, 2), (2, 2)).fix(&board));
    fill(&mut board, 2, 1);
    assert!(domino((1, 2), (2, 2)).fix(&board));
    assert!(!domino((0, 2), (1, 2)).fix(&board));
}

#[test]
fn hard_drop_stops_on_filled_cells() {
    let mut board = Board::new(4, 6);
    fill(&mut board, 2, 1);
    let mut piece = domino((1, 5), (2, 5));
    piece.hard_drop(&board);
    assert_eq!(cells(&piece), vec![pos(1, 2), pos(2, 2)]);
    assert!(piece.fix(&board));
    let mut upright = domino((0, 4), (0, 5));
    upright.hard_drop(&board);
    assert_eq!(cells(&upright), vec![pos(0, 0), pos(0, 1)]);
}

#[test]
fn clockwise_round_trip_restores_cells() {
    // Room below the left cell and above the right cell; the left edge keeps
    // the turn back from taking the cell left of the lower one.
    let board = Board::new(3, 3);
    let mut piece = domino((1, 1), (0, 1));
    piece.clock_rotation(&board);
    assert_eq!(cells(&piece), vec![pos(0, 1), pos(0, 0)]);
    piece.anticlock_rotation(&board);
    assert_eq!(cells(&piece), vec![pos(0, 1), pos(1, 1)]);
}

#[test]
fn anticlockwise_round_trip_restores_cells() {
    let board = Board::new(3, 3);
    let mut piece = domino((1, 1), (2, 1));
    piece.anticlock_rotation(&board);
    assert_eq!(cells(&piece), vec![pos(2, 0), pos(2, 1)]);
    piece.clock_rotation(&board);
    assert_eq!(cells(&piece), vec![pos(2, 1), pos(1, 1)]);
}

#[test]
fn turn_back_prefers_lower_pivot() {
    let board = Board::new(3, 3);
    let mut piece = domino((1, 1), (2, 1));
    piece.clock_rotation(&board);
    assert_eq!(cells(&piece), vec![pos(1, 1), pos(1, 0)]);
    piece.anticlock_rotation(&board);
    assert_eq!(cells(&piece), vec![pos(0, 0), pos(1, 0)]);
}

#[test]
fn clockwise_on_bottom_row_goes_up_from_right_cell() {
    let board = Board::new(4, 3);
    let mut piece = domino((2, 0), (1, 0));
    piece.clock_rotation(&board);
    assert_eq!(cells(&piece), vec![pos(2, 1), pos(2, 0)]);
    piece.clock_rotation(&board);
    assert_eq!(cells(&piece), vec![pos(3, 0), pos(2, 0)]);
}

#[test]
fn upright_turns_and_blocked_turns() {
    let mut board = Board::new(3, 3);
    let mut piece = domino((2, 0), (2, 1));
    piece.clock_rotation(&board);
    assert_eq!(cells(&piece), vec![pos(2, 1), pos(1, 1)]);
    let mut piece = domino((1, 0), (1, 1));
    piece.anticlock_rotation(&board);
    assert_eq!(cells(&piece), vec![pos(0, 0), pos(1, 0)]);
    let mut piece = domino((0, 1), (0, 2));
    piece.anticlock_rotation(&board);
    assert_eq!(cells(&piece), vec![pos(0, 2), pos(1, 2)]);
    fill(&mut board, 1, 2);
    fill(&mut board, 1, 1);
    let mut piece = domino((0, 1), (0, 2));
    piece.anticlock_rotation(&board);
    assert_eq!(cells(&piece), vec![pos(0, 2), pos(0, 1)]);
    piece.clock_rotation(&board);
    assert_eq!(cells(&piece), vec![pos(0, 2), pos(0, 1)]);
}

#[test]
fn blocked_flat_turn_only_orders_cells() {
    let mut board = Board::new(2, 1);
    let mut piece = domino((1, 0), (0, 0));
    piece.clock_rotation(&board);
    assert_eq!(cells(&piece), vec![pos(0, 0), pos(1, 0)]);
    fill(&mut board, 0, 0);
    let mut piece = domino((1, 0), (0, 0));
    piece.anticlock_rotation(&board);
    assert_eq!(cells(&piece), vec![pos(0, 0), pos(1, 0)]);
}

#[test]
fn action_numbers() {
    assert_eq!(GameState::action_of(0), Some(Action::Down));
    assert_eq!(GameState::action_of(1), Some(Action::Left));
    assert_eq!(GameState::action_of(2), Some(Action::Right));
    assert_eq!(GameState::action_of(3), Some(Action::Clockwise));
    assert_eq!(GameState::action_of(4), Some(Action::Anticlockwise));
    assert_eq!(GameState::action_of(5), None);
}

#[test]
fn place_drops_then_merges_and_spawns() {
    let mut state = GameState::new(4, 3);
    assert_eq!(cells(&state.piece), vec![pos(1, 2), pos(2, 2)]);
    state.act(Action::Left);
    assert_eq!(cells(&state.piece), vec![pos(0, 2), pos(1, 2)]);
    state.act(Action::Place);
    assert_eq!(cells(&state.piece), vec![pos(0, 0), pos(1, 0)]);
    state.act(Action::Place);
    assert_eq!(cells(&state.piece), vec![pos(1, 2), pos(2, 2)]);
    assert!(!state.gameboard.get_cell(pos(0, 0)).empty());
    assert!(!state.gameboard.get_cell(pos(1, 0)).empty());
    state.act(Action::Right);
    state.act(Action::Place);
    state.act(Action::Place);
    // Row 0 was completed and cleared.
    for x in 0..4 {
        assert!(state.gameboard.get_cell(pos(x, 0)).empty());
    }
}

#[test]
fn prefill_places_one_piece() {
    let mut state = GameState::new(10, 4);
    state.prefill(1);
    assert_eq!(state.gameboard.width, 10);
    assert_eq!(state.gameboard.height, 4);
    let filled = state
        .gameboard
        .cells()
        .iter()
        .filter(|c| !c.empty())
        .count();
    assert_eq!(filled, 2);
}
