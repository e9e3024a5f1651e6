//! Two players, a turn counter, and the step that plays one round.
use vstd::prelude::*;

use rand::rngs::StdRng;

use crate::board::{cell_index, in_bounds, Cell, COLS, ROWS};
use crate::player::Player;

verus! {

/// Which side won.
#[derive(Clone, Copy, PartialEq, Eq, Structural, Debug)]
pub enum GameEndReason {
    PlayerAWon,
    PlayerBWon,
}

/// Where a game stands.
#[derive(Clone, Copy, PartialEq, Eq, Structural, Debug)]
pub enum GameStatus {
    NotStarted,
    InProgress,
    Ended(GameEndReason),
    /// The user left the game; no side won.
    Aborted,
}

/// What the human side does on its turn.
#[derive(Clone, Copy, PartialEq, Eq, Structural, Debug)]
pub enum TurnInput {
    /// Guess the cell at `(row, col)` of the opponent's board.
    Guess(usize, usize),
    /// Leave the game.
    Exit,
}

/// How many cells of `cells` are committed open (a guess there would change them).
pub open spec fn open_count(cells: Seq<Cell>) -> nat
    decreases cells.len(),
{
    if cells.len() == 0 {
        0
    } else {
        open_count(cells.drop_last()) + if cells.last().baseline().is_open() {
            1nat
        } else {
            0nat
        }
    }
}

proof fn lemma_open_count_bound(cells: Seq<Cell>)
    ensures
        open_count(cells) <= cells.len(),
    decreases cells.len(),
{
    if cells.len() > 0 {
        lemma_open_count_bound(cells.drop_last());
    }
}

/// Closing one open cell lowers the count of open cells by one.
proof fn lemma_open_count_close(cells: Seq<Cell>, i: int, x: Cell)
    requires
        0 <= i < cells.len(),
        cells[i].baseline().is_open(),
        !x.baseline().is_open(),
    ensures
        open_count(cells.update(i, x)) + 1 == open_count(cells),
    decreases cells.len(),
{
    let u = cells.update(i, x);
    if i == cells.len() - 1 {
        assert(u.drop_last() =~= cells.drop_last());
    } else {
        assert(u.drop_last() =~= cells.drop_last().update(i, x));
        lemma_open_count_close(cells.drop_last(), i, x);
    }
}

/// A game between a human side (`player_a`) and an automatic side (`player_b`).
pub struct Game {
    pub(crate) player_a: Player,
    pub(crate) player_b: Player,
    pub(crate) turn_count: usize,
    pub(crate) status: GameStatus,
}

impl Game {
    pub open(crate) spec fn a(self) -> Player {
        self.player_a
    }

    pub open(crate) spec fn b(self) -> Player {
        self.player_b
    }

    pub open(crate) spec fn turns(self) -> nat {
        self.turn_count as nat
    }

    pub open(crate) spec fn state(self) -> GameStatus {
        self.status
    }

    /// Both players are consistent, and every completed round closed one
    /// open cell of the opponent's board, which bounds the turn counter.
    pub open spec fn wf(self) -> bool {
        &&& self.a().wf()
        &&& self.b().wf()
        &&& self.turns() + open_count(self.b().grid().cells_view()) <= ROWS * COLS + 1
    }

    /// The status after a round in which both guesses landed: the opponent's
    /// fleet is checked first.
    pub open spec fn round_status(a: Player, b: Player) -> GameStatus {
        if b.fleet_sunk() {
            GameStatus::Ended(GameEndReason::PlayerAWon)
        } else if a.fleet_sunk() {
            GameStatus::Ended(GameEndReason::PlayerBWon)
        } else {
            GameStatus::InProgress
        }
    }

    /// `self` is `old` after one call of `step` with `input`.
    pub open spec fn played_from(self, old: Game, input: TurnInput) -> bool {
        match input {
            TurnInput::Exit => {
                &&& self.state() == GameStatus::Aborted
                &&& self.a() == old.a()
                &&& self.b() == old.b()
                &&& self.turns() == old.turns()
            },
            TurnInput::Guess(row, col) => {
                if old.b().committed_at(row as int, col as int).is_open() {
                    &&& self.b().guessed_from(old.b(), row as int, col as int)
                    &&& self.a().auto_guessed_from(old.a())
                    &&& self.state() == Game::round_status(self.a(), self.b())
                    &&& self.turns() == if self.state() == GameStatus::InProgress {
                        old.turns() + 1
                    } else {
                        old.turns()
                    }
                } else {
                    self == old
                }
            },
        }
    }

    /// A game between two players whose fleets are placed; not started yet,
    /// with the turn counter at its first turn.
    pub fn new(player_a: Player, player_b: Player) -> (r: Game)
        requires
            player_a.wf(),
            player_b.wf(),
        ensures
            r.wf(),
            r.a() == player_a,
            r.b() == player_b,
            r.turns() == 1,
            r.state() == GameStatus::NotStarted,
    {
        proof {
            lemma_open_count_bound(player_b.grid().cells_view());
        }
        Game { player_a, player_b, turn_count: 1, status: GameStatus::NotStarted }
    }

    pub fn get_player_a(&self) -> (r: &Player)
        ensures
            *r == self.a(),
    {
        &self.player_a
    }

    pub fn get_player_b(&self) -> (r: &Player)
        ensures
            *r == self.b(),
    {
        &self.player_b
    }

    pub fn get_turn_count(&self) -> (r: usize)
        ensures
            r == self.turns(),
    {
        self.turn_count
    }

    pub fn get_status(&self) -> (r: GameStatus)
        ensures
            r == self.state(),
    {
        self.status
    }

    /// Start a game that has not started: play begins, the turn counter as it
    /// is. Any other game is left as it is.
    pub fn start(&mut self)
        requires
            old(self).wf(),
        ensures
            final(self).wf(),
            final(self).a() == old(self).a(),
            final(self).b() == old(self).b(),
            final(self).turns() == old(self).turns(),
            old(self).state() == GameStatus::NotStarted ==> final(self).state()
                == GameStatus::InProgress,
            old(self).state() != GameStatus::NotStarted ==> *final(self) == *old(self),
    {
        if self.status == GameStatus::NotStarted {
            self.status = GameStatus::InProgress;
        }
    }

    /// Play one round. `Exit` aborts the game. A guess at a cell of the
    /// opponent's board that is already resolved changes nothing. Otherwise
    /// the guess lands, the opponent answers with an automatic guess, the
    /// opponent's fleet and then the human's are checked for a win, and the
    /// turn counter advances if nobody has won. Returns the new status.
    pub fn step(&mut self, input: TurnInput, rng: &mut StdRng) -> (r: GameStatus)
        requires
            old(self).wf(),
            old(self).state() == GameStatus::InProgress,
            input matches TurnInput::Guess(row, col) ==> in_bounds(row as int, col as int),
        ensures
            final(self).wf(),
            r == final(self).state(),
            final(self).played_from(*old(self), input),
            input matches TurnInput::Guess(row, col) ==> (old(self).b().committed_at(
                row as int,
                col as int,
            ).is_resolved() ==> *final(self) == *old(self)),
    {
        match input {
            TurnInput::Exit => {
                self.status = GameStatus::Aborted;
            },
            TurnInput::Guess(row, col) => {
                let ghost b0 = self.b();
                if !self.player_b.guess_if_open(row, col) {
                    return GameStatus::InProgress;
                }
                proof {
                    let i = cell_index(row as int, col as int);
                    assert(0 <= i < ROWS * COLS);
                    let x = b0.grid().cell(row as int, col as int).guessed();
                    lemma_open_count_close(b0.grid().cells_view(), i, x);
                }
                self.player_a.auto_guess(rng);
                if self.player_b.all_ships_sunk() {
                    self.status = GameStatus::Ended(GameEndReason::PlayerAWon);
                } else if self.player_a.all_ships_sunk() {
                    self.status = GameStatus::Ended(GameEndReason::PlayerBWon);
                } else {
                    self.turn_count = self.turn_count + 1;
                }
            },
        }
        self.status
    }
}

/// A guess at a cell of the opponent's board that a guess has already
/// resolved changes nothing in the round: neither board, fleet, status nor
/// turn counter.
pub proof fn lemma_redundant_guess_is_noop(before: Game, after: Game, row: usize, col: usize)
    requires
        before.wf(),
        in_bounds(row as int, col as int),
        before.b().committed_at(row as int, col as int).is_resolved(),
        after.played_from(before, TurnInput::Guess(row, col)),
    ensures
        after == before,
{
}

/// A round names at most one winner, and when both fleets are sunk after it,
/// the opponent's fleet is checked first, so the human side wins. A round in
/// which neither fleet is sunk leaves the game in progress.
pub proof fn lemma_round_names_one_winner(before: Game, after: Game, row: usize, col: usize)
    requires
        before.wf(),
        in_bounds(row as int, col as int),
        before.b().committed_at(row as int, col as int).is_open(),
        after.played_from(before, TurnInput::Guess(row, col)),
    ensures
        after.b().fleet_sunk() ==> after.state() == GameStatus::Ended(GameEndReason::PlayerAWon),
        !after.b().fleet_sunk() && after.a().fleet_sunk() ==> after.state() == GameStatus::Ended(
            GameEndReason::PlayerBWon,
        ),
        !after.b().fleet_sunk() && !after.a().fleet_sunk() ==> after.state()
            == GameStatus::InProgress,
{
}

} // verus!
