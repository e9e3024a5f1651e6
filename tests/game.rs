use battleship::board::{CellState, COLS, ROWS};
use battleship::game::{Game, GameEndReason, GameStatus, TurnInput};
use battleship::player::Player;
use battleship::ship::{ShipOrientation, ShipType};
use rand::rngs::StdRng;
use rand::SeedableRng;

/// A player with one patrol boat on (0,0)-(0,1).
fn with_patrol_boat(name: &'static str) -> Player {
    let mut p = Player::new(name);
    assert!(p.place_ship(0, 0, ShipOrientation::Right, ShipType::PatrolBoat));
    p
}

#[test]
fn new_game_starts_at_turn_one() {
    let mut game = Game::new(with_patrol_boat("Player"), with_patrol_boat("Computer"));
    assert_eq!(game.get_status(), GameStatus::NotStarted);
    assert_eq!(game.get_turn_count(), 1);
    game.start();
    assert_eq!(game.get_status(), GameStatus::InProgress);
    assert_eq!(game.get_turn_count(), 1);
    game.start();
    assert_eq!(game.get_turn_count(), 1);
}

#[test]
fn a_miss_advances_the_turn() {
    let mut rng = StdRng::seed_from_u64(9);
    let mut game = Game::new(with_patrol_boat("Player"), with_patrol_boat("Computer"));
    game.start();
    let status = game.step(TurnInput::Guess(5, 5), &mut rng);
    assert_eq!(status, GameStatus::InProgress);
    assert_eq!(game.get_turn_count(), 2);
    assert_eq!(game.get_player_b().get_cell(5, 5).get_state(), CellState::Guessed);
    let mut resolved = 0;
    for r in 0..ROWS {
        for c in 0..COLS {
            let s = game.get_player_a().get_cell(r, c).get_state();
            if s == CellState::Guessed || s == CellState::HitShip {
                resolved += 1;
            }
        }
    }
    assert_eq!(resolved, 1);
}

#[test]
fn repeated_guess_leaves_cell_and_turn_unchanged() {
    let mut rng = StdRng::seed_from_u64(2);
    let mut game = Game::new(with_patrol_boat("Player"), with_patrol_boat("Computer"));
    game.start();
    assert_eq!(game.step(TurnInput::Guess(0, 0), &mut rng), GameStatus::InProgress);
    assert_eq!(game.get_turn_count(), 2);
    assert_eq!(game.get_player_b().get_cell(0, 0).get_state(), CellState::HitShip);
    assert_eq!(game.step(TurnInput::Guess(0, 0), &mut rng), GameStatus::InProgress);
    assert_eq!(game.get_turn_count(), 2);
    assert_eq!(game.get_player_b().get_cell(0, 0).get_state(), CellState::HitShip);
    assert_eq!(game.step(TurnInput::Guess(7, 7), &mut rng), GameStatus::InProgress);
    assert_eq!(game.step(TurnInput::Guess(7, 7), &mut rng), GameStatus::InProgress);
    assert_eq!(game.get_turn_count(), 3);
    assert_eq!(game.get_player_b().get_cell(7, 7).get_state(), CellState::Guessed);
}

#[test]
fn sinking_the_last_ship_wins() {
    let mut rng = StdRng::seed_from_u64(4);
    let mut game = Game::new(with_patrol_boat("Player"), with_patrol_boat("Computer"));
    game.start();
    assert_eq!(game.step(TurnInput::Guess(0, 0), &mut rng), GameStatus::InProgress);
    let status = game.step(TurnInput::Guess(0, 1), &mut rng);
    assert_eq!(status, GameStatus::Ended(GameEndReason::PlayerAWon));
    assert_eq!(game.get_status(), GameStatus::Ended(GameEndReason::PlayerAWon));
    assert_eq!(game.get_turn_count(), 2);
    assert!(game.get_player_b().all_ships_sunk());
}

#[test]
fn both_fleets_sunk_in_one_round_favours_player_a() {
    let mut rng = StdRng::seed_from_u64(8);
    // the human's board: only (0,1), the last cell of its boat, is still open
    let mut human = with_patrol_boat("Player");
    for r in 0..ROWS {
        for c in 0..COLS {
            if (r, c) != (0, 1) {
                human.guess(r, c);
            }
        }
    }
    // the computer's boat has one unhit cell left
    let mut computer = with_patrol_boat("Computer");
    computer.guess(0, 0);
    let mut game = Game::new(human, computer);
    game.start();
    let status = game.step(TurnInput::Guess(0, 1), &mut rng);
    assert!(game.get_player_a().all_ships_sunk());
    assert!(game.get_player_b().all_ships_sunk());
    assert_eq!(status, GameStatus::Ended(GameEndReason::PlayerAWon));
    assert_eq!(game.get_turn_count(), 1);
}

#[test]
fn losing_the_last_ship_to_the_computer_loses() {
    let mut rng = StdRng::seed_from_u64(6);
    let mut human = with_patrol_boat("Player");
    for r in 0..ROWS {
        for c in 0..COLS {
            if (r, c) != (0, 1) {
                human.guess(r, c);
            }
        }
    }
    let mut game = Game::new(human, with_patrol_boat("Computer"));
    game.start();
    let status = game.step(TurnInput::Guess(9, 9), &mut rng);
    assert_eq!(status, GameStatus::Ended(GameEndReason::PlayerBWon));
    assert_eq!(game.get_turn_count(), 1);
}

#[test]
fn exit_aborts_without_a_winner() {
    let mut rng = StdRng::seed_from_u64(1);
    let mut game = Game::new(with_patrol_boat("Player"), with_patrol_boat("Computer"));
    game.start();
    assert_eq!(game.step(TurnInput::Exit, &mut rng), GameStatus::Aborted);
    assert_eq!(game.get_status(), GameStatus::Aborted);
    assert_eq!(game.get_turn_count(), 1);
    assert_eq!(game.get_player_b().get_cell(0, 0).get_state(), CellState::OwnShip(ShipType::PatrolBoat));
}

#[test]
fn full_game_against_automatic_fleet_ends() {
    let mut rng = StdRng::seed_from_u64(21);
    let mut human = Player::new("Player");
    assert_eq!(human.auto_place_ships(100, 10, &mut rng), Ok(()));
    let mut computer = Player::new("Computer");
    assert_eq!(computer.auto_place_ships(100, 10, &mut rng), Ok(()));
    let mut game = Game::new(human, computer);
    game.start();
    let mut status = GameStatus::InProgress;
    'play: for r in 0..ROWS {
        for c in 0..COLS {
            status = game.step(TurnInput::Guess(r, c), &mut rng);
            if status != GameStatus::InProgress {
                break 'play;
            }
        }
    }
    assert!(matches!(status, GameStatus::Ended(_)));
    assert!(game.get_turn_count() <= 100);
}
