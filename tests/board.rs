use battleship::board::{Board, Cell, CellState, COLS, ROWS};
use battleship::ship::{ShipOrientation, ShipType};

#[test]
fn carrier_right_from_origin_fits() {
    let board = Board::default();
    let cells = board.try_place_ship(0, 0, ShipOrientation::Right, ShipType::Carrier);
    assert_eq!(cells, Some(vec![(0, 0), (0, 1), (0, 2), (0, 3), (0, 4)]));
}

#[test]
fn carrier_right_past_the_edge_does_not_fit() {
    let board = Board::default();
    assert_eq!(board.try_place_ship(0, 8, ShipOrientation::Right, ShipType::Carrier), None);
}

#[test]
fn placement_in_each_direction() {
    let board = Board::default();
    assert_eq!(
        board.try_place_ship(4, 4, ShipOrientation::Up, ShipType::Destroyer),
        Some(vec![(4, 4), (3, 4), (2, 4)])
    );
    assert_eq!(
        board.try_place_ship(4, 4, ShipOrientation::Down, ShipType::PatrolBoat),
        Some(vec![(4, 4), (5, 4)])
    );
    assert_eq!(
        board.try_place_ship(4, 4, ShipOrientation::Left, ShipType::Battleship),
        Some(vec![(4, 4), (4, 3), (4, 2), (4, 1)])
    );
    // ending exactly on the last row or column still fits
    assert_eq!(
        board.try_place_ship(9, 5, ShipOrientation::Right, ShipType::Carrier),
        Some(vec![(9, 5), (9, 6), (9, 7), (9, 8), (9, 9)])
    );
    assert_eq!(
        board.try_place_ship(4, 0, ShipOrientation::Up, ShipType::Carrier),
        Some(vec![(4, 0), (3, 0), (2, 0), (1, 0), (0, 0)])
    );
    assert_eq!(board.try_place_ship(3, 0, ShipOrientation::Up, ShipType::Carrier), None);
    assert_eq!(board.try_place_ship(0, 1, ShipOrientation::Left, ShipType::Destroyer), None);
    assert_eq!(board.try_place_ship(8, 0, ShipOrientation::Down, ShipType::Destroyer), None);
}

#[test]
fn placement_over_an_occupied_cell_does_not_fit() {
    let mut board = Board::default();
    board.set(0, 3, CellState::OwnShip(ShipType::PatrolBoat));
    assert_eq!(board.try_place_ship(0, 0, ShipOrientation::Right, ShipType::Carrier), None);
    assert_eq!(
        board.try_place_ship(0, 0, ShipOrientation::Right, ShipType::Destroyer),
        Some(vec![(0, 0), (0, 1), (0, 2)])
    );
    // a guessed miss blocks a placement too
    board.set(5, 5, CellState::Guessed);
    assert_eq!(board.try_place_ship(5, 3, ShipOrientation::Right, ShipType::Destroyer), None);
}

#[test]
fn placement_leaves_the_board_unchanged() {
    let board = Board::default();
    let _ = board.try_place_ship(2, 2, ShipOrientation::Down, ShipType::Carrier);
    for r in 0..ROWS {
        for c in 0..COLS {
            assert_eq!(board.get(r, c).get_state(), CellState::Empty);
        }
    }
}

#[test]
fn commit_twice_equals_commit_once() {
    let mut once = Board::default();
    once.update(3, 7, CellState::Guessed);
    let mut twice = Board::default();
    twice.update(3, 7, CellState::Guessed);
    twice.update(3, 7, CellState::Guessed);
    assert_eq!(once.get(3, 7).get_state(), CellState::Guessed);
    assert_eq!(once.get(3, 7).get_prev_state(), CellState::Guessed);
    assert_eq!(twice.get(3, 7).get_state(), once.get(3, 7).get_state());
    assert_eq!(twice.get(3, 7).get_prev_state(), once.get(3, 7).get_prev_state());
}

#[test]
fn commit_uses_row_major_index() {
    let mut board = Board::default();
    board.update(2, 3, CellState::HitShip);
    assert_eq!(board.get(2, 3).get_state(), CellState::HitShip);
    assert_eq!(board.get(3, 2).get_state(), CellState::Empty);
    assert_eq!(board.get(0, 3).get_state(), CellState::Empty);
    assert_eq!(board.get(0, 0).get_state(), CellState::Empty);
}

#[test]
fn commit_off_the_board_changes_nothing() {
    let mut board = Board::default();
    board.update(10, 0, CellState::Guessed);
    board.set(0, 10, CellState::Guessed);
    for r in 0..ROWS {
        for c in 0..COLS {
            assert_eq!(board.get(r, c).get_state(), CellState::Empty);
        }
    }
}

#[test]
fn highlight_then_undo_restores_state() {
    let mut board = Board::default();
    board.set(1, 1, CellState::OwnShip(ShipType::Submarine));
    board.highlight_cell(1, 1);
    assert_eq!(board.get(1, 1).get_state(), CellState::Highlighted);
    assert_eq!(board.get(1, 1).get_prev_state(), CellState::OwnShip(ShipType::Submarine));
    board.undo(1, 1);
    assert_eq!(board.get(1, 1).get_state(), CellState::OwnShip(ShipType::Submarine));
    assert_eq!(board.get(1, 1).get_prev_state(), CellState::OwnShip(ShipType::Submarine));
}

#[test]
fn cell_overlays_and_undo() {
    let mut cell = Cell::new();
    assert_eq!(cell.get_state(), CellState::Empty);
    assert_eq!(cell.get_prev_state(), CellState::Empty);
    cell.invalidate();
    assert_eq!(cell.get_state(), CellState::InvalidPlacement);
    assert_eq!(cell.get_prev_state(), CellState::Empty);
    cell.undo();
    assert_eq!(cell.get_state(), CellState::Empty);
    cell.highlight();
    assert_eq!(cell.get_state(), CellState::Highlighted);
    cell.undo();
    assert_eq!(cell.get_state(), CellState::Empty);
}

#[test]
fn get_mut_writes_through() {
    let mut board = Board::default();
    board.get_mut(6, 2).highlight();
    assert_eq!(board.get(6, 2).get_state(), CellState::Highlighted);
    assert_eq!(board.get(2, 6).get_state(), CellState::Empty);
}

#[test]
fn hidden_cell_conceals_unhit_ship() {
    let mut board = Board::default();
    board.set(0, 0, CellState::OwnShip(ShipType::Carrier));
    board.set(0, 1, CellState::HitShip);
    let hidden = Cell::get_hidden_cell(board.get(0, 0));
    assert_eq!(hidden.get_state(), CellState::Empty);
    assert_eq!(hidden.get_prev_state(), CellState::Empty);
    let shown = Cell::get_hidden_cell(board.get(0, 1));
    assert_eq!(shown.get_state(), CellState::HitShip);
}

#[test]
fn placement_over_a_highlighted_cell_does_not_fit() {
    let mut board = Board::default();
    board.highlight_cell(0, 2);
    assert_eq!(board.try_place_ship(0, 0, ShipOrientation::Right, ShipType::Carrier), None);
    board.undo(0, 2);
    assert_eq!(
        board.try_place_ship(0, 0, ShipOrientation::Right, ShipType::PatrolBoat),
        Some(vec![(0, 0), (0, 1)])
    );
    assert!(board.try_place_ship(0, 0, ShipOrientation::Right, ShipType::Carrier).is_some());
}
