use battleship::board::{CellState, COLS, ROWS};
use battleship::player::Player;
use battleship::ship::{ShipOrientation, ShipType};
use rand::rngs::StdRng;
use rand::SeedableRng;

fn with_carrier_on_top_row() -> Player {
    let mut p = Player::new("Player");
    let cells = p
        .get_board()
        .try_place_ship(0, 0, ShipOrientation::Right, ShipType::Carrier)
        .unwrap();
    p.add_ship(cells, ShipType::Carrier);
    p
}

fn count_cells(p: &Player, pred: impl Fn(CellState) -> bool) -> usize {
    let mut n = 0;
    for r in 0..ROWS {
        for c in 0..COLS {
            if pred(p.get_cell(r, c).get_state()) {
                n += 1;
            }
        }
    }
    n
}

#[test]
fn add_ship_commits_its_cells() {
    let p = with_carrier_on_top_row();
    for c in 0..5 {
        assert_eq!(p.get_cell(0, c).get_state(), CellState::OwnShip(ShipType::Carrier));
        assert_eq!(p.get_cell(0, c).get_prev_state(), CellState::OwnShip(ShipType::Carrier));
    }
    assert_eq!(p.get_cell(0, 5).get_state(), CellState::Empty);
    assert_eq!(p.get_ships().len(), 1);
    assert_eq!(p.get_ships()[0].get_cells(), &vec![(0, 0), (0, 1), (0, 2), (0, 3), (0, 4)]);
    assert_eq!(p.get_name(), "Player");
}

#[test]
fn guess_hits_ship_and_repeat_changes_nothing() {
    let mut p = with_carrier_on_top_row();
    p.guess(0, 0);
    assert_eq!(p.get_cell(0, 0).get_state(), CellState::HitShip);
    p.guess(0, 0);
    assert_eq!(p.get_cell(0, 0).get_state(), CellState::HitShip);
    assert_eq!(p.get_cell(0, 0).get_prev_state(), CellState::HitShip);
}

#[test]
fn guess_on_water_is_a_miss_and_stays_one() {
    let mut p = with_carrier_on_top_row();
    p.guess(4, 4);
    assert_eq!(p.get_cell(4, 4).get_state(), CellState::Guessed);
    p.guess(4, 4);
    assert_eq!(p.get_cell(4, 4).get_state(), CellState::Guessed);
    assert_eq!(count_cells(&p, |s| s == CellState::Guessed), 1);
}

#[test]
fn ship_sinks_after_all_five_hits() {
    let mut p = with_carrier_on_top_row();
    let cells = p
        .get_board()
        .try_place_ship(5, 5, ShipOrientation::Down, ShipType::PatrolBoat)
        .unwrap();
    p.add_ship(cells, ShipType::PatrolBoat);
    for c in 0..5 {
        assert!(!p.get_ships()[0].is_sunk(p.get_board()));
        p.guess(0, c);
    }
    assert!(p.get_ships()[0].is_sunk(p.get_board()));
    assert!(!p.get_ships()[1].is_sunk(p.get_board()));
    assert!(!p.all_ships_sunk());
    p.guess(5, 5);
    p.guess(6, 5);
    assert!(p.all_ships_sunk());
}

#[test]
fn player_without_ships_has_all_ships_sunk() {
    let p = Player::new("Nobody");
    assert!(p.all_ships_sunk());
}

#[test]
fn hidden_view_conceals_unhit_ships() {
    let mut p = with_carrier_on_top_row();
    p.guess(0, 1);
    assert_eq!(p.get_hidden_cell(0, 0).get_state(), CellState::Empty);
    assert_eq!(p.get_hidden_cell(0, 1).get_state(), CellState::HitShip);
    assert_eq!(p.get_cell(0, 0).get_state(), CellState::OwnShip(ShipType::Carrier));
}

#[test]
fn overlays_keep_the_committed_state() {
    let mut p = with_carrier_on_top_row();
    p.highlight_cell(0, 2);
    assert_eq!(p.get_cell(0, 2).get_state(), CellState::Highlighted);
    p.invalidate_cell(0, 2);
    assert_eq!(p.get_cell(0, 2).get_state(), CellState::InvalidPlacement);
    assert_eq!(p.get_cell(0, 2).get_prev_state(), CellState::OwnShip(ShipType::Carrier));
    p.undo_cell(0, 2);
    assert_eq!(p.get_cell(0, 2).get_state(), CellState::OwnShip(ShipType::Carrier));
    // a guess under a highlight still lands on the committed ship
    p.highlight_cell(0, 3);
    p.guess(0, 3);
    assert_eq!(p.get_cell(0, 3).get_state(), CellState::HitShip);
}

#[test]
fn get_cell_mut_reaches_the_cell() {
    let mut p = with_carrier_on_top_row();
    p.get_cell_mut(9, 9).highlight();
    assert_eq!(p.get_cell(9, 9).get_state(), CellState::Highlighted);
    p.get_cell_mut(9, 9).undo();
    assert_eq!(p.get_cell(9, 9).get_state(), CellState::Empty);
}

#[test]
fn place_ship_reports_whether_it_fit() {
    let mut p = with_carrier_on_top_row();
    assert!(!p.place_ship(0, 2, ShipOrientation::Down, ShipType::Destroyer));
    assert_eq!(p.get_ships().len(), 1);
    assert!(p.place_ship(1, 2, ShipOrientation::Down, ShipType::Destroyer));
    assert_eq!(p.get_ships().len(), 2);
    assert_eq!(p.get_cell(3, 2).get_state(), CellState::OwnShip(ShipType::Destroyer));
}

#[test]
fn auto_place_ships_places_seventeen_cells() {
    for seed in 0..20u64 {
        let mut rng = StdRng::seed_from_u64(seed);
        let mut p = Player::new("Computer");
        assert_eq!(p.auto_place_ships(50, 20, &mut rng), Ok(()));
        let owned = count_cells(&p, |s| matches!(s, CellState::OwnShip(_)));
        assert_eq!(owned, 17);
        let ships = p.get_ships();
        assert_eq!(ships.len(), 5);
        let mut all: Vec<(usize, usize)> = Vec::new();
        for (ship, kind) in ships.iter().zip(ShipType::iter()) {
            assert_eq!(ship.get_ship_type(), kind);
            assert_eq!(ship.get_cells().len(), kind.size());
            for &(r, c) in ship.get_cells() {
                assert_eq!(p.get_cell(r, c).get_state(), CellState::OwnShip(kind));
                all.push((r, c));
            }
        }
        all.sort();
        all.dedup();
        assert_eq!(all.len(), 17);
    }
}

#[test]
fn auto_place_ships_again_replaces_the_fleet() {
    let mut rng = StdRng::seed_from_u64(3);
    let mut p = Player::new("Computer");
    assert_eq!(p.auto_place_ships(50, 20, &mut rng), Ok(()));
    p.guess(0, 0);
    assert_eq!(p.auto_place_ships(50, 20, &mut rng), Ok(()));
    assert_eq!(p.get_ships().len(), 5);
    assert_eq!(count_cells(&p, |s| matches!(s, CellState::OwnShip(_))), 17);
    assert_eq!(count_cells(&p, |s| s == CellState::Guessed || s == CellState::HitShip), 0);
}

#[test]
fn auto_place_ships_without_budget_fails() {
    let mut rng = StdRng::seed_from_u64(1);
    let mut p = Player::new("Computer");
    assert_eq!(p.auto_place_ships(0, 5, &mut rng), Err(()));
    assert_eq!(p.auto_place_ships(50, 0, &mut rng), Err(()));
}

#[test]
fn auto_guess_resolves_exactly_one_cell() {
    let mut rng = StdRng::seed_from_u64(11);
    let mut p = with_carrier_on_top_row();
    for turn in 1..=100 {
        p.auto_guess(&mut rng);
        let resolved =
            count_cells(&p, |s| s == CellState::Guessed || s == CellState::HitShip);
        assert_eq!(resolved, turn);
    }
    assert!(p.all_ships_sunk());
    assert!(p.open_cells().is_empty());
    // with nothing open, a further automatic guess changes nothing
    p.auto_guess(&mut rng);
    assert_eq!(count_cells(&p, |s| s == CellState::Guessed), 95);
}

#[test]
fn auto_guess_finds_the_last_open_cell() {
    let mut rng = StdRng::seed_from_u64(5);
    let mut p = with_carrier_on_top_row();
    for r in 0..ROWS {
        for c in 0..COLS {
            if (r, c) != (0, 4) {
                p.guess(r, c);
            }
        }
    }
    assert_eq!(p.open_cells(), vec![(0, 4)]);
    p.auto_guess(&mut rng);
    assert_eq!(p.get_cell(0, 4).get_state(), CellState::HitShip);
    assert!(p.all_ships_sunk());
}

#[test]
fn open_cells_lists_unresolved_cells_in_order() {
    let mut p = with_carrier_on_top_row();
    for r in 0..ROWS {
        for c in 0..COLS {
            if !(r == 9 && c >= 8) && (r, c) != (0, 1) {
                p.guess(r, c);
            }
        }
    }
    assert_eq!(p.open_cells(), vec![(0, 1), (9, 8), (9, 9)]);
    assert!(!p.guess_if_open(0, 0));
    assert!(p.guess_if_open(9, 8));
    assert_eq!(p.get_cell(9, 8).get_state(), CellState::Guessed);
}

#[test]
fn highlighted_hit_does_not_count_as_sunk() {
    let mut p = Player::new("Player");
    assert!(p.place_ship(2, 2, ShipOrientation::Right, ShipType::PatrolBoat));
    p.guess(2, 2);
    p.guess(2, 3);
    assert!(p.all_ships_sunk());
    p.highlight_cell(2, 3);
    assert!(!p.get_ships()[0].is_sunk(p.get_board()));
    assert!(!p.all_ships_sunk());
    p.undo_cell(2, 3);
    assert!(p.all_ships_sunk());
}

#[test]
fn hidden_view_conceals_ship_under_highlight() {
    let mut p = with_carrier_on_top_row();
    p.highlight_cell(0, 0);
    let seen = p.get_hidden_cell(0, 0);
    assert_eq!(seen.get_state(), CellState::Highlighted);
    assert_eq!(seen.get_prev_state(), CellState::Empty);
    p.guess(0, 1);
    p.highlight_cell(0, 1);
    assert_eq!(p.get_hidden_cell(0, 1).get_prev_state(), CellState::HitShip);
}

#[test]
fn clear_overlays_restores_every_cell() {
    let mut p = with_carrier_on_top_row();
    p.highlight_cell(0, 0);
    p.invalidate_cell(5, 5);
    p.clear_overlays();
    assert_eq!(p.get_cell(0, 0).get_state(), CellState::OwnShip(ShipType::Carrier));
    assert_eq!(p.get_cell(5, 5).get_state(), CellState::Empty);
}

#[test]
fn fleet_from_draws_takes_the_first_fitting_draw() {
    // orientation index 2 is Right, 3 is Down
    let draws = vec![
        vec![(2, 0, 8), (2, 0, 0)],
        vec![(3, 0, 0), (3, 1, 0)],
        vec![(2, 9, 7)],
        vec![(2, 2, 2)],
        vec![(9, 20, 0), (3, 5, 9)],
    ];
    let mut p = with_carrier_on_top_row();
    assert!(p.place_fleet_from_draws(&draws));
    let ships = p.get_ships();
    assert_eq!(ships.len(), 5);
    assert_eq!(ships[0].get_cells(), &vec![(0, 0), (0, 1), (0, 2), (0, 3), (0, 4)]);
    assert_eq!(ships[1].get_cells(), &vec![(1, 0), (2, 0), (3, 0), (4, 0)]);
    assert_eq!(ships[2].get_cells(), &vec![(9, 7), (9, 8), (9, 9)]);
    assert_eq!(ships[3].get_cells(), &vec![(2, 2), (2, 3), (2, 4)]);
    assert_eq!(ships[4].get_cells(), &vec![(5, 9), (6, 9)]);
    assert_eq!(count_cells(&p, |s| matches!(s, CellState::OwnShip(_))), 17);
}

#[test]
fn fleet_from_draws_stops_at_a_kind_without_room() {
    let draws = vec![
        vec![(2, 0, 0)],
        vec![(1, 0, 0), (2, 0, 1)],
        vec![(2, 4, 4)],
    ];
    let mut p = Player::new("Computer");
    assert!(!p.place_fleet_from_draws(&draws));
    assert_eq!(p.get_ships().len(), 1);
    assert_eq!(p.get_ships()[0].get_ship_type(), ShipType::Carrier);
    assert_eq!(count_cells(&p, |s| matches!(s, CellState::OwnShip(_))), 5);

    // too few lists: the kinds without draws cannot be placed
    let mut q = Player::new("Computer");
    assert!(!q.place_fleet_from_draws(&vec![vec![(2, 0, 0)], vec![(2, 1, 0)], vec![(2, 2, 0)]]));
    assert_eq!(q.get_ships().len(), 3);
}
