//! A player: one board and the fleet placed on it.
use vstd::prelude::*;

use rand::rngs::StdRng;

use crate::board::{as_points, in_bounds, placement, Board, Cell, CellState, COLS, ROWS};
use crate::rng::draw_below;
use crate::ship::{catalog, step, total_length, valid_cells, Ship, ShipOrientation, ShipType};

verus! {

/// How many uniform draws `auto_guess` makes before it picks among the open
/// cells directly.
pub const RANDOM_GUESS_DRAWS: usize = 200;

/// A player: a name, a board, and the ships placed on that board.
pub struct Player {
    pub(crate) name: &'static str,
    pub(crate) board: Board,
    pub(crate) ships: Vec<Ship>,
}

impl Player {
    pub open(crate) spec fn grid(self) -> Board {
        self.board
    }

    pub open(crate) spec fn fleet(self) -> Seq<Ship> {
        self.ships@
    }

    pub open(crate) spec fn label(self) -> &'static str {
        self.name
    }

    /// The committed state of the cell at `(row, col)`.
    pub open spec fn committed_at(self, row: int, col: int) -> CellState {
        self.grid().cell(row, col).baseline()
    }

    /// Some ship of the fleet covers `(row, col)`.
    pub open spec fn owns(self, row: int, col: int) -> bool {
        exists|k: int, a: int|
            0 <= k < self.fleet().len() && 0 <= a < self.fleet()[k].coords().len() && (
            #[trigger] self.fleet()[k].coords()[a]).0 == row && self.fleet()[k].coords()[a].1
                == col
    }

    /// The board and the fleet agree: the fleet's ships are valid and pairwise
    /// disjoint, each of their cells is committed to that ship's kind or to a
    /// hit, every committed ship or hit cell belongs to a ship, every
    /// committed state is one that play produces, and every cell shows its
    /// committed state or an overlay over it.
    pub open spec fn wf(self) -> bool {
        &&& self.grid().wf()
        &&& forall|k: int| 0 <= k < self.fleet().len() ==> (#[trigger] self.fleet()[k]).wf()
        &&& forall|k1: int, a1: int, k2: int, a2: int|
            0 <= k1 < self.fleet().len() && 0 <= k2 < self.fleet().len() && k1 != k2 && 0 <= a1
                < self.fleet()[k1].coords().len() && 0 <= a2 < self.fleet()[k2].coords().len()
                ==> #[trigger] self.fleet()[k1].coords()[a1] != #[trigger] self.fleet()[k2].coords()[a2]
        &&& forall|k: int, a: int|
            0 <= k < self.fleet().len() && 0 <= a < self.fleet()[k].coords().len() ==> {
                let s = self.committed_at(
                    (#[trigger] self.fleet()[k].coords()[a]).0 as int,
                    self.fleet()[k].coords()[a].1 as int,
                );
                s == CellState::OwnShip(self.fleet()[k].ship_type()) || s == CellState::HitShip
            }
        &&& forall|r: int, c: int|
            in_bounds(r, c) ==> (#[trigger] self.committed_at(r, c)).is_settled()
        &&& forall|r: int, c: int| in_bounds(r, c) ==> (#[trigger] self.grid().cell(r, c)).consistent()
        &&& forall|r: int, c: int|
            in_bounds(r, c) && (self.committed_at(r, c) is OwnShip || self.committed_at(r, c)
                is HitShip) ==> #[trigger] self.owns(r, c)
    }

    /// `self` is `old` after one automatic guess: some open cell was guessed,
    /// or, where none was open, the board is as it was.
    pub open spec fn auto_guessed_from(self, old: Player) -> bool {
        &&& self.fleet() == old.fleet()
        &&& self.label() == old.label()
        &&& old.has_open_cell() ==> exists|r: int, c: int|
            in_bounds(r, c) && (#[trigger] old.committed_at(r, c)).is_open()
                && !old.grid().cell(r, c).current().is_resolved() && self.guessed_from(old, r, c)
        &&& !old.has_open_cell() ==> self.grid().cells_view() == old.grid().cells_view()
    }

    /// Every coordinate of every ship shows a hit.
    pub open spec fn fleet_sunk(self) -> bool {
        forall|k: int| 0 <= k < self.fleet().len() ==> #[trigger] self.fleet()[k].sunk_on(self.grid())
    }

    /// Some cell on the board would change if guessed.
    pub open spec fn has_open_cell(self) -> bool {
        exists|r: int, c: int| in_bounds(r, c) && (#[trigger] self.committed_at(r, c)).is_open()
    }

    /// `self` is `old` after a guess at `(row, col)`.
    pub open spec fn guessed_from(self, old: Player, row: int, col: int) -> bool {
        &&& self.fleet() == old.fleet()
        &&& self.label() == old.label()
        &&& self.grid().cells_view() == old.grid().with_cell(
            row,
            col,
            old.grid().cell(row, col).guessed(),
        )
    }

    /// `self` is `old` with a ship of kind `kind` added on `cells`.
    pub open spec fn extends(self, old: Player, kind: ShipType, cells: Seq<(usize, usize)>) -> bool {
        &&& self.label() == old.label()
        &&& self.grid().wf()
        &&& self.fleet().len() == old.fleet().len() + 1
        &&& forall|k: int| 0 <= k < old.fleet().len() ==> #[trigger] self.fleet()[k] == old.fleet()[k]
        &&& self.fleet().last().ship_type() == kind
        &&& self.fleet().last().coords() == cells
        &&& forall|r: int, c: int|
            in_bounds(r, c) ==> #[trigger] self.grid().cell(r, c) == if cells.contains(
                (r as usize, c as usize),
            ) {
                old.grid().cell(r, c).committed(CellState::OwnShip(kind))
            } else {
                old.grid().cell(r, c)
            }
    }

    /// Since the fleet was placed nothing has happened: each ship cell is
    /// committed to its kind, and every other cell is blank.
    pub open spec fn freshly_placed(self) -> bool {
        &&& forall|k: int, a: int|
            0 <= k < self.fleet().len() && 0 <= a < self.fleet()[k].coords().len() ==> self.grid().cell(
                (#[trigger] self.fleet()[k].coords()[a]).0 as int,
                self.fleet()[k].coords()[a].1 as int,
            ) == Cell::blank().committed(CellState::OwnShip(self.fleet()[k].ship_type()))
        &&& forall|r: int, c: int|
            in_bounds(r, c) && !self.owns(r, c) ==> #[trigger] self.grid().cell(r, c)
                == Cell::blank()
    }

    /// The cells of each ship of the fleet, as integer pairs.
    pub open spec fn fleet_points(self) -> Seq<Seq<(int, int)>> {
        self.fleet().map_values(|s: Ship| as_points(s.coords()))
    }

    /// Every ship is a straight run of its kind's length from some origin.
    pub open spec fn straight_runs(self) -> bool {
        forall|k: int|
            0 <= k < self.fleet().len() ==> exists|r: int, c: int, d: ShipOrientation|
                as_points((#[trigger] self.fleet()[k]).coords()) == #[trigger] placement(
                    r,
                    c,
                    d,
                    self.fleet()[k].ship_type().length(),
                )
    }

    /// The kinds of the fleet's ships, in placement order.
    pub open spec fn fleet_kinds(self) -> Seq<ShipType> {
        kinds_of(self.fleet())
    }

    /// A new player with the given name, an empty board and no ships.
    pub fn new(name: &'static str) -> (r: Player)
        ensures
            r.wf(),
            r.label() == name,
            r.fleet().len() == 0,
            forall|row: int, col: int|
                in_bounds(row, col) ==> #[trigger] r.grid().cell(row, col) == Cell::blank(),
    {
        let board = Board::default();
        let r = Player { name, board, ships: Vec::new() };
        assert forall|row: int, col: int| in_bounds(row, col) implies #[trigger] r.grid().cell(
            row,
            col,
        ) == Cell::blank() by {
            assert(0 <= row * COLS + col < ROWS * COLS);
        }
        r
    }

    pub fn get_name(&self) -> (r: &'static str)
        ensures
            r == self.label(),
    {
        self.name
    }

    pub fn get_board(&self) -> (r: &Board)
        ensures
            *r == self.grid(),
    {
        &self.board
    }

    pub fn get_ships(&self) -> (r: &Vec<Ship>)
        ensures
            r@ == self.fleet(),
    {
        &self.ships
    }

    /// The owner's full view of the cell at `(row, col)`.
    pub fn get_cell(&self, row: usize, col: usize) -> (r: &Cell)
        requires
            self.grid().wf(),
            in_bounds(row as int, col as int),
        ensures
            *r == self.grid().cell(row as int, col as int),
    {
        self.board.get(row, col)
    }

    /// An opponent's view of the cell at `(row, col)`: an unhit ship reads as
    /// empty water, also as the restore point under an overlay.
    pub fn get_hidden_cell(&self, row: usize, col: usize) -> (r: Cell)
        requires
            self.grid().wf(),
            in_bounds(row as int, col as int),
        ensures
            r == self.grid().cell(row as int, col as int).redacted(),
            !(r.current() is OwnShip),
            !(r.baseline() is OwnShip),
    {
        let cell: &Cell = self.board.get(row, col);
        match cell.get_state() {
            CellState::OwnShip(_) => Cell::get_hidden_cell(cell),
            _ => match cell.get_prev_state() {
                CellState::OwnShip(_) => Cell { state: cell.get_state(), prev_state: CellState::Empty },
                _ => *cell,
            },
        }
    }

    /// Direct access to the cell at `(row, col)`. Writing through it may break
    /// the agreement between board and fleet; the overlay methods of `Player`
    /// keep it.
    pub fn get_cell_mut(&mut self, row: usize, col: usize) -> (r: &mut Cell)
        requires
            old(self).grid().wf(),
            in_bounds(row as int, col as int),
        ensures
            *r == old(self).grid().cell(row as int, col as int),
            final(self).grid().cells_view() == old(self).grid().with_cell(
                row as int,
                col as int,
                *final(r),
            ),
            final(self).fleet() == old(self).fleet(),
            final(self).label() == old(self).label(),
    {
        self.board.get_mut(row, col)
    }
}


/// Ownership of a cell depends on the fleet alone.
proof fn lemma_owns_same_fleet(before: Player, after: Player, r: int, c: int)
    requires
        after.fleet() == before.fleet(),
        before.owns(r, c),
    ensures
        after.owns(r, c),
{
    let (k, a) = choose|k: int, a: int|
        0 <= k < before.fleet().len() && 0 <= a < before.fleet()[k].coords().len() && (
        #[trigger] before.fleet()[k].coords()[a]).0 == r && before.fleet()[k].coords()[a].1 == c;
    assert(after.fleet()[k].coords()[a] == before.fleet()[k].coords()[a]);
}

/// Changes that keep every committed state and the fleet keep the agreement
/// between board and fleet.
proof fn lemma_wf_from_baselines(before: Player, after: Player)
    requires
        before.wf(),
        after.grid().wf(),
        after.fleet() == before.fleet(),
        forall|r: int, c: int|
            in_bounds(r, c) ==> #[trigger] after.committed_at(r, c) == before.committed_at(r, c),
        forall|r: int, c: int| in_bounds(r, c) ==> (#[trigger] after.grid().cell(r, c)).consistent(),
    ensures
        after.wf(),
{
    assert forall|k: int, a: int|
        0 <= k < after.fleet().len() && 0 <= a < after.fleet()[k].coords().len() implies {
        let s = after.committed_at(
            (#[trigger] after.fleet()[k].coords()[a]).0 as int,
            after.fleet()[k].coords()[a].1 as int,
        );
        s == CellState::OwnShip(after.fleet()[k].ship_type()) || s == CellState::HitShip
    } by {
        let p = before.fleet()[k].coords()[a];
        assert(before.fleet()[k].wf());
        assert(in_bounds(p.0 as int, p.1 as int));
    }
    assert forall|r: int, c: int|
        in_bounds(r, c) && (after.committed_at(r, c) is OwnShip || after.committed_at(r, c)
            is HitShip) implies #[trigger] after.owns(r, c) by {
        assert(before.owns(r, c));
        lemma_owns_same_fleet(before, after, r, c);
    }
}

/// Replacing one cell by a consistent cell with the same committed state keeps
/// the agreement between board and fleet.
proof fn lemma_wf_after_overlay(before: Player, after: Player, row: int, col: int, x: Cell)
    requires
        before.wf(),
        in_bounds(row, col),
        after.fleet() == before.fleet(),
        after.grid().cells_view() == before.grid().with_cell(row, col, x),
        x.consistent(),
        x.baseline() == before.committed_at(row, col),
    ensures
        after.wf(),
{
    assert forall|r: int, c: int| in_bounds(r, c) implies #[trigger] after.grid().cell(r, c) == if r
        == row && c == col {
        x
    } else {
        before.grid().cell(r, c)
    } by {
        if !(r == row && c == col) {
            assert(r * COLS + c != row * COLS + col);
        }
    }
    assert forall|r: int, c: int| in_bounds(r, c) implies (#[trigger] after.grid().cell(
        r,
        c,
    )).consistent() by {
        assert(before.grid().cell(r, c).consistent());
    }
    assert forall|r: int, c: int| in_bounds(r, c) implies #[trigger] after.committed_at(r, c)
        == before.committed_at(r, c) by {
        assert(after.grid().cell(r, c) == if r == row && c == col {
            x
        } else {
            before.grid().cell(r, c)
        });
    }
    lemma_wf_from_baselines(before, after);
}

/// Adding a ship on committed-empty cells keeps the agreement between board and fleet.
proof fn lemma_wf_after_add(before: Player, after: Player, kind: ShipType, cells: Seq<(usize, usize)>)
    requires
        before.wf(),
        valid_cells(kind, cells),
        forall|a: int|
            0 <= a < cells.len() ==> before.committed_at(
                (#[trigger] cells[a]).0 as int,
                cells[a].1 as int,
            ) == CellState::Empty,
        after.extends(before, kind, cells),
        after.fleet().last().wf(),
    ensures
        after.wf(),
{
    let n = before.fleet().len() as int;
    assert(after.fleet()[n] == after.fleet().last());
    // a cell of an earlier ship is not among the new cells
    assert forall|k: int, a: int, b: int|
        0 <= k < n && 0 <= a < before.fleet()[k].coords().len() && 0 <= b < cells.len() implies #[trigger] before.fleet()[k].coords()[a]
        != #[trigger] cells[b] by {
        let p = before.fleet()[k].coords()[a];
        let s = before.committed_at(p.0 as int, p.1 as int);
        assert(s == CellState::OwnShip(before.fleet()[k].ship_type()) || s == CellState::HitShip);
        assert(before.committed_at(cells[b].0 as int, cells[b].1 as int) == CellState::Empty);
    }
    assert forall|k: int| 0 <= k < after.fleet().len() implies (#[trigger] after.fleet()[k]).wf() by {
        if k < n {
            assert(after.fleet()[k] == before.fleet()[k]);
        }
    }
    assert forall|k1: int, a1: int, k2: int, a2: int|
        0 <= k1 < after.fleet().len() && 0 <= k2 < after.fleet().len() && k1 != k2 && 0 <= a1
            < after.fleet()[k1].coords().len() && 0 <= a2 < after.fleet()[k2].coords().len() implies #[trigger] after.fleet()[k1].coords()[a1]
        != #[trigger] after.fleet()[k2].coords()[a2] by {
        if k1 < n && k2 < n {
            assert(after.fleet()[k1] == before.fleet()[k1]);
            assert(after.fleet()[k2] == before.fleet()[k2]);
            assert(before.fleet()[k1].coords()[a1] != before.fleet()[k2].coords()[a2]);
        } else if k1 < n {
            assert(after.fleet()[k1] == before.fleet()[k1]);
            assert(before.fleet()[k1].coords()[a1] != cells[a2]);
        } else {
            assert(after.fleet()[k2] == before.fleet()[k2]);
            assert(before.fleet()[k2].coords()[a2] != cells[a1]);
        }
    }
    assert forall|k: int, a: int|
        0 <= k < after.fleet().len() && 0 <= a < after.fleet()[k].coords().len() implies {
        let s = after.committed_at(
            (#[trigger] after.fleet()[k].coords()[a]).0 as int,
            after.fleet()[k].coords()[a].1 as int,
        );
        s == CellState::OwnShip(after.fleet()[k].ship_type()) || s == CellState::HitShip
    } by {
        let p = after.fleet()[k].coords()[a];
        if k < n {
            assert(after.fleet()[k] == before.fleet()[k]);
            assert forall|b: int| 0 <= b < cells.len() implies cells[b] != p by {
                assert(before.fleet()[k].coords()[a] != cells[b]);
            }
            assert(!cells.contains(p));
            assert(in_bounds(p.0 as int, p.1 as int)) by {
                assert(before.fleet()[k].wf());
            }
            assert(after.grid().cell(p.0 as int, p.1 as int) == before.grid().cell(
                p.0 as int,
                p.1 as int,
            ));
        } else {
            assert(cells[a] == p);
            assert(cells.contains(p));
            assert(in_bounds(p.0 as int, p.1 as int));
            assert(after.grid().cell(p.0 as int, p.1 as int) == before.grid().cell(
                p.0 as int,
                p.1 as int,
            ).committed(CellState::OwnShip(kind)));
        }
    }
    assert forall|r: int, c: int| in_bounds(r, c) implies (#[trigger] after.grid().cell(
        r,
        c,
    )).consistent() by {
        assert(before.grid().cell(r, c).consistent());
    }
    assert forall|r: int, c: int| in_bounds(r, c) implies (#[trigger] after.committed_at(
        r,
        c,
    )).is_settled() by {
        assert(after.grid().cell(r, c) == if cells.contains((r as usize, c as usize)) {
            before.grid().cell(r, c).committed(CellState::OwnShip(kind))
        } else {
            before.grid().cell(r, c)
        });
        assert(before.committed_at(r, c).is_settled());
    }
    assert forall|r: int, c: int|
        in_bounds(r, c) && (after.committed_at(r, c) is OwnShip || after.committed_at(r, c)
            is HitShip) implies #[trigger] after.owns(r, c) by {
        assert(after.grid().cell(r, c) == if cells.contains((r as usize, c as usize)) {
            before.grid().cell(r, c).committed(CellState::OwnShip(kind))
        } else {
            before.grid().cell(r, c)
        });
        if cells.contains((r as usize, c as usize)) {
            let b = choose|b: int| 0 <= b < cells.len() && cells[b] == (r as usize, c as usize);
            assert(after.fleet()[n].coords()[b] == cells[b]);
        } else {
            assert(before.owns(r, c));
            let (k, a) = choose|k: int, a: int|
                0 <= k < before.fleet().len() && 0 <= a < before.fleet()[k].coords().len() && (
                #[trigger] before.fleet()[k].coords()[a]).0 == r && before.fleet()[k].coords()[a].1
                    == c;
            assert(after.fleet()[k] == before.fleet()[k]);
            assert(after.fleet()[k].coords()[a] == before.fleet()[k].coords()[a]);
        }
    }
}

impl Player {
    /// Undo any overlay on the cell at `(row, col)` of this player's board.
    pub fn undo_cell(&mut self, row: usize, col: usize)
        requires
            old(self).wf(),
            in_bounds(row as int, col as int),
        ensures
            final(self).wf(),
            final(self).fleet() == old(self).fleet(),
            final(self).label() == old(self).label(),
            final(self).grid().cells_view() == old(self).grid().with_cell(
                row as int,
                col as int,
                old(self).grid().cell(row as int, col as int).undone(),
            ),
    {
        self.board.undo(row, col);
        proof {
            lemma_wf_after_overlay(
                *old(self),
                *self,
                row as int,
                col as int,
                old(self).grid().cell(row as int, col as int).undone(),
            );
        }
    }

    /// Replace any overlay on the cell at `(row, col)` by the highlight overlay.
    pub fn highlight_cell(&mut self, row: usize, col: usize)
        requires
            old(self).wf(),
            in_bounds(row as int, col as int),
        ensures
            final(self).wf(),
            final(self).fleet() == old(self).fleet(),
            final(self).label() == old(self).label(),
            final(self).grid().cells_view() == old(self).grid().with_cell(
                row as int,
                col as int,
                old(self).grid().cell(row as int, col as int).undone().highlighted(),
            ),
    {
        self.board.undo(row, col);
        self.board.highlight_cell(row, col);
        proof {
            assert(self.grid().cells_view() =~= old(self).grid().with_cell(
                row as int,
                col as int,
                old(self).grid().cell(row as int, col as int).undone().highlighted(),
            ));
            lemma_wf_after_overlay(
                *old(self),
                *self,
                row as int,
                col as int,
                old(self).grid().cell(row as int, col as int).undone().highlighted(),
            );
        }
    }

    /// Replace any overlay on the cell at `(row, col)` by the invalid-placement overlay.
    pub fn invalidate_cell(&mut self, row: usize, col: usize)
        requires
            old(self).wf(),
            in_bounds(row as int, col as int),
        ensures
            final(self).wf(),
            final(self).fleet() == old(self).fleet(),
            final(self).label() == old(self).label(),
            final(self).grid().cells_view() == old(self).grid().with_cell(
                row as int,
                col as int,
                old(self).grid().cell(row as int, col as int).undone().invalidated(),
            ),
    {
        self.board.undo(row, col);
        self.board.get_mut(row, col).invalidate();
        proof {
            assert(self.grid().cells_view() =~= old(self).grid().with_cell(
                row as int,
                col as int,
                old(self).grid().cell(row as int, col as int).undone().invalidated(),
            ));
            lemma_wf_after_overlay(
                *old(self),
                *self,
                row as int,
                col as int,
                old(self).grid().cell(row as int, col as int).undone().invalidated(),
            );
        }
    }

    /// Set a ship of kind `ship_type` on `cell_indices`, which a successful
    /// `Board::try_place_ship` on this board produced: the ship joins the fleet
    /// and each of its cells is committed to `OwnShip(ship_type)`.
    pub fn add_ship(&mut self, cell_indices: Vec<(usize, usize)>, ship_type: ShipType)
        requires
            old(self).wf(),
            valid_cells(ship_type, cell_indices@),
            forall|a: int|
                0 <= a < cell_indices@.len() ==> old(self).committed_at(
                    (#[trigger] cell_indices@[a]).0 as int,
                    cell_indices@[a].1 as int,
                ) == CellState::Empty,
        ensures
            final(self).wf(),
            final(self).extends(*old(self), ship_type, cell_indices@),
    {
        let ghost cells = cell_indices@;
        let mut i: usize = 0;
        while i < cell_indices.len()
            invariant
                cell_indices@ == cells,
                valid_cells(ship_type, cells),
                0 <= i <= cells.len(),
                self.grid().wf(),
                self.fleet() == old(self).fleet(),
                self.label() == old(self).label(),
                old(self).grid().wf(),
                forall|r: int, c: int|
                    in_bounds(r, c) ==> #[trigger] self.grid().cell(r, c) == if cells.take(
                        i as int,
                    ).contains((r as usize, c as usize)) {
                        old(self).grid().cell(r, c).committed(CellState::OwnShip(ship_type))
                    } else {
                        old(self).grid().cell(r, c)
                    },
            decreases cells.len() - i,
        {
            let (row, col) = cell_indices[i];
            assert(in_bounds(cells[i as int].0 as int, cells[i as int].1 as int));
            let ghost prev = self.grid();
            self.board.set(row, col, CellState::OwnShip(ship_type));
            assert forall|r: int, c: int| in_bounds(r, c) implies #[trigger] self.grid().cell(r, c)
                == if cells.take(i + 1).contains((r as usize, c as usize)) {
                old(self).grid().cell(r, c).committed(CellState::OwnShip(ship_type))
            } else {
                old(self).grid().cell(r, c)
            } by {
                assert(cells.take(i + 1) =~= cells.take(i as int).push(cells[i as int]));
                assert(prev.cell(r, c) == if cells.take(i as int).contains((r as usize, c as usize)) {
                    old(self).grid().cell(r, c).committed(CellState::OwnShip(ship_type))
                } else {
                    old(self).grid().cell(r, c)
                });
                if r == row && c == col {
                    assert(cells.take(i + 1)[i as int] == cells[i as int]);
                    assert(cells.take(i + 1).contains((r as usize, c as usize)));
                } else {
                    assert((r as usize, c as usize) != cells[i as int]);
                    assert(cells.take(i + 1).contains((r as usize, c as usize)) == cells.take(
                        i as int,
                    ).contains((r as usize, c as usize)));
                    assert(0 <= r * COLS + c < ROWS * COLS);
                    assert(r * COLS + c != row * COLS + col);
                }
            }
            i += 1;
        }
        assert(cells.take(cells.len() as int) =~= cells);
        let ship = Ship::new(ship_type, cell_indices);
        self.ships.push(ship);
        proof {
            assert(self.fleet().last() == ship);
            lemma_wf_after_add(*old(self), *self, ship_type, cells);
        }
    }

    /// Returns true if all of the player's ships are sunk: every coordinate of
    /// every ship shows a hit.
    pub fn all_ships_sunk(&self) -> (r: bool)
        requires
            self.wf(),
        ensures
            r == self.fleet_sunk(),
    {
        let mut k: usize = 0;
        while k < self.ships.len()
            invariant
                self.wf(),
                0 <= k <= self.fleet().len(),
                forall|j: int| 0 <= j < k ==> #[trigger] self.fleet()[j].sunk_on(self.grid()),
            decreases self.fleet().len() - k,
        {
            assert(self.fleet()[k as int].wf());
            if !self.ships[k].is_sunk(&self.board) {
                return false;
            }
            k += 1;
        }
        true
    }

    /// Apply a guess at `(row, col)`, judged by the committed state there: an
    /// unhit ship becomes a hit, empty water a miss, and a cell already
    /// guessed stays as it is.
    pub fn guess(&mut self, row: usize, col: usize)
        requires
            old(self).wf(),
            in_bounds(row as int, col as int),
        ensures
            final(self).wf(),
            final(self).guessed_from(*old(self), row as int, col as int),
            old(self).committed_at(row as int, col as int).is_resolved() ==> final(self).grid().cells_view()
                == old(self).grid().cells_view(),
    {
        let prev: CellState = self.board.get(row, col).get_prev_state();
        match prev {
            CellState::OwnShip(_) => {
                self.board.update(row, col, CellState::HitShip);
            },
            CellState::Empty => {
                self.board.update(row, col, CellState::Guessed);
            },
            _ => {
                assert(self.grid().cells_view() =~= old(self).grid().with_cell(
                    row as int,
                    col as int,
                    old(self).grid().cell(row as int, col as int).guessed(),
                ));
            },
        }
        proof {
            lemma_wf_after_guess(*old(self), *self, row as int, col as int);
        }
    }
}

/// A guess keeps the agreement between board and fleet.
proof fn lemma_wf_after_guess(before: Player, after: Player, row: int, col: int)
    requires
        before.wf(),
        in_bounds(row, col),
        after.guessed_from(before, row, col),
    ensures
        after.wf(),
{
    let old_cell = before.grid().cell(row, col);
    assert forall|r: int, c: int| in_bounds(r, c) && !(r == row && c == col) implies #[trigger] after.committed_at(
        r,
        c,
    ) == before.committed_at(r, c) by {
        assert(r * COLS + c != row * COLS + col);
    }
    assert(after.grid().cell(row, col) == old_cell.guessed());
    assert forall|k: int, a: int|
        0 <= k < after.fleet().len() && 0 <= a < after.fleet()[k].coords().len() implies {
        let s = after.committed_at(
            (#[trigger] after.fleet()[k].coords()[a]).0 as int,
            after.fleet()[k].coords()[a].1 as int,
        );
        s == CellState::OwnShip(after.fleet()[k].ship_type()) || s == CellState::HitShip
    } by {
        let p = before.fleet()[k].coords()[a];
        assert(before.fleet()[k].wf());
        assert(in_bounds(p.0 as int, p.1 as int));
        let s0 = before.committed_at(p.0 as int, p.1 as int);
        assert(s0 == CellState::OwnShip(before.fleet()[k].ship_type()) || s0 == CellState::HitShip);
    }
    assert forall|r: int, c: int|
        in_bounds(r, c) && (after.committed_at(r, c) is OwnShip || after.committed_at(r, c)
            is HitShip) implies #[trigger] after.owns(r, c) by {
        if r == row && c == col {
            assert(after.committed_at(r, c) == old_cell.guessed().baseline());
            assert(before.committed_at(r, c) == old_cell.baseline());
            assert(before.committed_at(r, c) is OwnShip || before.committed_at(r, c) is HitShip);
            assert(before.owns(r, c));
        }
        lemma_owns_same_fleet(before, after, r, c);
    }
    assert forall|r: int, c: int| in_bounds(r, c) implies (#[trigger] after.committed_at(
        r,
        c,
    )).is_settled() by {
        assert(before.committed_at(r, c).is_settled());
    }
    assert forall|r: int, c: int| in_bounds(r, c) implies (#[trigger] after.grid().cell(
        r,
        c,
    )).consistent() by {
        assert(before.grid().cell(r, c).consistent());
        if !(r == row && c == col) {
            assert(r * COLS + c != row * COLS + col);
        }
    }
}


/// The cells of a placement that fits are a valid, committed-empty set of ship cells.
proof fn lemma_fitting_placement_valid(
    board: Board,
    row: int,
    col: int,
    o: ShipOrientation,
    kind: ShipType,
    v: Seq<(usize, usize)>,
)
    requires
        board.fits(row, col, o, kind.length()),
        as_points(v) == placement(row, col, o, kind.length()),
        forall|r: int, c: int| in_bounds(r, c) ==> (#[trigger] board.cell(r, c)).consistent(),
    ensures
        valid_cells(kind, v),
        forall|a: int|
            0 <= a < v.len() ==> board.cell((#[trigger] v[a]).0 as int, v[a].1 as int).baseline()
                == CellState::Empty,
{
    assert(as_points(v).len() == v.len());
    assert(v.len() == kind.length());
    assert forall|a: int| 0 <= a < v.len() implies {
        &&& in_bounds((#[trigger] v[a]).0 as int, v[a].1 as int)
        &&& board.cell(v[a].0 as int, v[a].1 as int).baseline() == CellState::Empty
    } by {
        assert(as_points(v)[a] == (v[a].0 as int, v[a].1 as int));
        assert(placement(row, col, o, kind.length())[a] == step(row, col, o, a));
        assert(board.cell(v[a].0 as int, v[a].1 as int).consistent());
    }
    assert forall|a: int, b: int| 0 <= a < v.len() && 0 <= b < v.len() && a != b implies v[a]
        != v[b] by {
        assert(as_points(v)[a] == (v[a].0 as int, v[a].1 as int));
        assert(as_points(v)[b] == (v[b].0 as int, v[b].1 as int));
        assert(placement(row, col, o, kind.length())[a] == step(row, col, o, a));
        assert(placement(row, col, o, kind.length())[b] == step(row, col, o, b));
    }
}

/// Adding a ship on blank cells to a freshly placed fleet leaves it freshly placed.
proof fn lemma_fresh_after_add(before: Player, after: Player, kind: ShipType, cells: Seq<(usize, usize)>)
    requires
        before.wf(),
        before.freshly_placed(),
        after.wf(),
        after.extends(before, kind, cells),
        forall|a: int|
            0 <= a < cells.len() ==> before.committed_at(
                (#[trigger] cells[a]).0 as int,
                cells[a].1 as int,
            ) == CellState::Empty,
    ensures
        after.freshly_placed(),
        after.fleet_kinds() == before.fleet_kinds().push(kind),
{
    let n = before.fleet().len() as int;
    assert(after.fleet()[n] == after.fleet().last());
    assert(after.fleet_kinds() =~= before.fleet_kinds().push(kind)) by {
        assert forall|k: int| 0 <= k < n implies after.fleet_kinds()[k] == before.fleet_kinds()[k] by {
            assert(after.fleet()[k] == before.fleet()[k]);
        }
    }
    assert forall|k: int, a: int|
        0 <= k < after.fleet().len() && 0 <= a < after.fleet()[k].coords().len() implies after.grid().cell(
        (#[trigger] after.fleet()[k].coords()[a]).0 as int,
        after.fleet()[k].coords()[a].1 as int,
    ) == Cell::blank().committed(CellState::OwnShip(after.fleet()[k].ship_type())) by {
        let p = after.fleet()[k].coords()[a];
        assert(after.fleet()[k].wf());
        assert(in_bounds(p.0 as int, p.1 as int));
        if k < n {
            assert(after.fleet()[k] == before.fleet()[k]);
            assert forall|b: int| 0 <= b < cells.len() implies cells[b] != p by {
                assert(after.fleet()[n].coords()[b] == cells[b]);
                assert(after.fleet()[k].coords()[a] != after.fleet()[n].coords()[b]);
            }
            assert(!cells.contains(p));
        } else {
            assert(cells[a] == p);
            assert(cells.contains(p));
        }
    }
    assert forall|r: int, c: int| in_bounds(r, c) && !after.owns(r, c) implies #[trigger] after.grid().cell(
        r,
        c,
    ) == Cell::blank() by {
        if cells.contains((r as usize, c as usize)) {
            let b = choose|b: int| 0 <= b < cells.len() && cells[b] == (r as usize, c as usize);
            assert(after.fleet()[n].coords()[b] == cells[b]);
        } else {
            if before.owns(r, c) {
                let (k, a) = choose|k: int, a: int|
                    0 <= k < before.fleet().len() && 0 <= a < before.fleet()[k].coords().len() && (
                    #[trigger] before.fleet()[k].coords()[a]).0 == r && before.fleet()[k].coords()[a].1
                        == c;
                assert(after.fleet()[k] == before.fleet()[k]);
                assert(after.fleet()[k].coords()[a] == before.fleet()[k].coords()[a]);
            }
        }
    }
}

/// A player with no ships on a blank board.
proof fn lemma_blank_player(p: Player)
    requires
        p.fleet().len() == 0,
        p.grid().wf(),
        forall|i: int| 0 <= i < ROWS * COLS ==> #[trigger] p.grid().cells_view()[i] == Cell::blank(),
    ensures
        p.wf(),
        p.freshly_placed(),
        p.fleet_kinds() == Seq::<ShipType>::empty(),
{
    assert forall|r: int, c: int| in_bounds(r, c) implies #[trigger] p.grid().cell(r, c)
        == Cell::blank() by {
        assert(0 <= r * COLS + c < ROWS * COLS);
        assert(p.grid().cells_view()[r * COLS + c] == Cell::blank());
    }
    assert forall|r: int, c: int| in_bounds(r, c) implies (#[trigger] p.committed_at(
        r,
        c,
    )).is_settled() by {
        assert(p.grid().cell(r, c) == Cell::blank());
    }
    assert forall|r: int, c: int| in_bounds(r, c) implies (#[trigger] p.grid().cell(
        r,
        c,
    )).consistent() by {
        assert(p.grid().cell(r, c) == Cell::blank());
    }
    assert(p.fleet_kinds() =~= Seq::<ShipType>::empty());
}

impl Player {
    /// Every cell on which a guess would change something: committed empty
    /// water or an unhit ship.
    pub fn open_cells(&self) -> (v: Vec<(usize, usize)>)
        requires
            self.grid().wf(),
        ensures
            forall|i: int|
                0 <= i < v@.len() ==> in_bounds((#[trigger] v@[i]).0 as int, v@[i].1 as int)
                    && self.committed_at(v@[i].0 as int, v@[i].1 as int).is_open(),
            forall|r: int, c: int|
                in_bounds(r, c) && (#[trigger] self.committed_at(r, c)).is_open() ==> v@.contains(
                    (r as usize, c as usize),
                ),
    {
        let mut v: Vec<(usize, usize)> = Vec::new();
        let mut row: usize = 0;
        while row < ROWS
            invariant
                self.grid().wf(),
                0 <= row <= ROWS,
                forall|i: int|
                    0 <= i < v@.len() ==> in_bounds((#[trigger] v@[i]).0 as int, v@[i].1 as int)
                        && self.committed_at(v@[i].0 as int, v@[i].1 as int).is_open(),
                forall|r: int, c: int|
                    0 <= r < row && 0 <= c < COLS && (#[trigger] self.committed_at(r, c)).is_open()
                        ==> v@.contains((r as usize, c as usize)),
            decreases ROWS - row,
        {
            let mut col: usize = 0;
            while col < COLS
                invariant
                    self.grid().wf(),
                    0 <= row < ROWS,
                    0 <= col <= COLS,
                    forall|i: int|
                        0 <= i < v@.len() ==> in_bounds((#[trigger] v@[i]).0 as int, v@[i].1 as int)
                            && self.committed_at(v@[i].0 as int, v@[i].1 as int).is_open(),
                    forall|r: int, c: int|
                        ((0 <= r < row && 0 <= c < COLS) || (r == row && 0 <= c < col)) && (
                        #[trigger] self.committed_at(r, c)).is_open() ==> v@.contains(
                            (r as usize, c as usize),
                        ),
                decreases COLS - col,
            {
                let s = self.board.get(row, col).get_prev_state();
                if matches!(s, CellState::Empty | CellState::OwnShip(_)) {
                    let ghost prev = v@;
                    v.push((row, col));
                    assert(v@[prev.len() as int] == (row, col));
                    assert forall|r: int, c: int|
                        ((0 <= r < row && 0 <= c < COLS) || (r == row && 0 <= c < col + 1)) && (
                        #[trigger] self.committed_at(r, c)).is_open() implies v@.contains(
                        (r as usize, c as usize),
                    ) by {
                        if r == row && c == col {
                        } else {
                            let j = choose|j: int| 0 <= j < prev.len() && prev[j] == (r as usize, c as usize);
                            assert(v@[j] == prev[j]);
                        }
                    }
                }
                col += 1;
            }
            row += 1;
        }
        v
    }

    /// Guess at `(row, col)` if that would change the cell; report whether it did.
    pub fn guess_if_open(&mut self, row: usize, col: usize) -> (r: bool)
        requires
            old(self).wf(),
            in_bounds(row as int, col as int),
        ensures
            final(self).wf(),
            r == old(self).committed_at(row as int, col as int).is_open(),
            final(self).guessed_from(*old(self), row as int, col as int),
            !r ==> *final(self) == *old(self),
    {
        let s = self.board.get(row, col).get_prev_state();
        if matches!(s, CellState::Empty | CellState::OwnShip(_)) {
            self.guess(row, col);
            true
        } else {
            assert(self.grid().cells_view() =~= old(self).grid().with_cell(
                row as int,
                col as int,
                old(self).grid().cell(row as int, col as int).guessed(),
            ));
            false
        }
    }

    /// Guess one open cell chosen at random: uniform draws over the whole board
    /// are tried first, and after `RANDOM_GUESS_DRAWS` misses one of the open
    /// cells is drawn directly. A board with no open cell is left as it is.
    pub fn auto_guess(&mut self, rng: &mut StdRng)
        requires
            old(self).wf(),
        ensures
            final(self).wf(),
            final(self).auto_guessed_from(*old(self)),
    {
        let mut tries: usize = 0;
        while tries < RANDOM_GUESS_DRAWS
            invariant
                self.wf(),
                self.fleet() == old(self).fleet(),
                self.label() == old(self).label(),
                self.grid().cells_view() == old(self).grid().cells_view(),
            decreases RANDOM_GUESS_DRAWS - tries,
        {
            let r = draw_below(rng, ROWS);
            let c = draw_below(rng, COLS);
            if self.guess_if_open(r, c) {
                assert(old(self).committed_at(r as int, c as int).is_open());
                return;
            }
            tries += 1;
        }
        let open = self.open_cells();
        if open.len() == 0 {
            assert(!old(self).has_open_cell()) by {
                if old(self).has_open_cell() {
                    let (r, c) = choose|r: int, c: int|
                        in_bounds(r, c) && (#[trigger] old(self).committed_at(r, c)).is_open();
                    assert(self.committed_at(r, c).is_open());
                    assert(open@.contains((r as usize, c as usize)));
                }
            }
            return;
        }
        let k = draw_below(rng, open.len());
        let (r, c) = open[k];
        assert(in_bounds(open@[k as int].0 as int, open@[k as int].1 as int));
        self.guess(r, c);
        assert(old(self).committed_at(r as int, c as int).is_open());
    }

    /// Place a ship of kind `ship_type` from `(row, col)` in direction `orient`
    /// if it fits there; report whether it did.
    pub fn place_ship(
        &mut self,
        row: usize,
        col: usize,
        orient: ShipOrientation,
        ship_type: ShipType,
    ) -> (r: bool)
        requires
            old(self).wf(),
            in_bounds(row as int, col as int),
        ensures
            final(self).wf(),
            r == old(self).grid().fits(row as int, col as int, orient, ship_type.length()),
            r ==> final(self).extends(*old(self), ship_type, final(self).fleet().last().coords()),
            r ==> as_points(final(self).fleet().last().coords()) == placement(
                row as int,
                col as int,
                orient,
                ship_type.length(),
            ),
            r ==> forall|a: int|
                0 <= a < final(self).fleet().last().coords().len() ==> old(self).committed_at(
                    (#[trigger] final(self).fleet().last().coords()[a]).0 as int,
                    final(self).fleet().last().coords()[a].1 as int,
                ) == CellState::Empty,
            !r ==> *final(self) == *old(self),
            final(self).label() == old(self).label(),
    {
        match self.board.try_place_ship(row, col, orient, ship_type) {
            Some(cells) => {
                proof {
                    lemma_fitting_placement_valid(
                        self.grid(),
                        row as int,
                        col as int,
                        orient,
                        ship_type,
                        cells@,
                    );
                }
                self.add_ship(cells, ship_type);
                true
            },
            None => false,
        }
    }

    /// Undo every overlay on this player's board.
    pub fn clear_overlays(&mut self)
        requires
            old(self).wf(),
        ensures
            final(self).wf(),
            final(self).fleet() == old(self).fleet(),
            final(self).label() == old(self).label(),
            forall|r: int, c: int|
                in_bounds(r, c) ==> #[trigger] final(self).grid().cell(r, c) == old(self).grid().cell(
                    r,
                    c,
                ).undone(),
    {
        let mut row: usize = 0;
        while row < ROWS
            invariant
                self.wf(),
                old(self).wf(),
                self.fleet() == old(self).fleet(),
                self.label() == old(self).label(),
                0 <= row <= ROWS,
                forall|r: int, c: int|
                    in_bounds(r, c) ==> #[trigger] self.grid().cell(r, c) == if r < row {
                        old(self).grid().cell(r, c).undone()
                    } else {
                        old(self).grid().cell(r, c)
                    },
            decreases ROWS - row,
        {
            let mut col: usize = 0;
            while col < COLS
                invariant
                    self.wf(),
                    old(self).wf(),
                    self.fleet() == old(self).fleet(),
                    self.label() == old(self).label(),
                    0 <= row < ROWS,
                    0 <= col <= COLS,
                    forall|r: int, c: int|
                        in_bounds(r, c) ==> #[trigger] self.grid().cell(r, c) == if r < row || (r
                            == row && c < col) {
                            old(self).grid().cell(r, c).undone()
                        } else {
                            old(self).grid().cell(r, c)
                        },
                decreases COLS - col,
            {
                let ghost prev = *self;
                self.undo_cell(row, col);
                assert forall|r: int, c: int| in_bounds(r, c) implies #[trigger] self.grid().cell(r, c)
                    == if r < row || (r == row && c < col + 1) {
                    old(self).grid().cell(r, c).undone()
                } else {
                    old(self).grid().cell(r, c)
                } by {
                    assert(prev.grid().cell(r, c) == if r < row || (r == row && c < col) {
                        old(self).grid().cell(r, c).undone()
                    } else {
                        old(self).grid().cell(r, c)
                    });
                    if !(r == row && c == col) {
                        assert(r * COLS + c != row * COLS + col);
                    }
                }
                col += 1;
            }
            row += 1;
        }
    }

    /// One attempt at placing the whole fleet from given draws, on a board
    /// cleared first. Kind `k` of the catalog tries the draws of `draws[k]` in
    /// order (none where `draws` is shorter) and is placed at the first that
    /// fits; a kind that finds none ends the attempt. Returns whether every
    /// kind was placed. Each draw is an orientation index (as read by
    /// `ShipOrientation::from_index`), a row and a column.
    pub fn place_fleet_from_draws(&mut self, draws: &Vec<Vec<(usize, usize, usize)>>) -> (placed: bool)
        requires
            old(self).wf(),
        ensures
            final(self).wf(),
            final(self).label() == old(self).label(),
            final(self).freshly_placed(),
            final(self).straight_runs(),
            final(self).fleet_kinds() == catalog().take(final(self).fleet().len() as int),
            layout_from_draws(draw_lists(draws@), final(self).fleet().len()) == Some(
                final(self).fleet_points(),
            ),
            placed == layout_from_draws(draw_lists(draws@), 5) is Some,
            placed ==> final(self).fleet().len() == 5,
            !placed ==> final(self).fleet().len() < 5 && layout_from_draws(
                draw_lists(draws@),
                final(self).fleet().len() + 1,
            ) is None,
    {
        let ghost dv = draw_lists(draws@);
        self.ships.clear();
        self.board = Board::default();
        proof {
            lemma_blank_player(*self);
            assert(self.fleet_points() =~= Seq::<Seq<(int, int)>>::empty());
            assert(catalog().take(0) =~= Seq::<ShipType>::empty());
        }
        let kinds = ShipType::iter();
        let mut k: usize = 0;
        while k < kinds.len()
            invariant
                kinds@ == catalog(),
                0 <= k <= 5,
                dv == draw_lists(draws@),
                self.wf(),
                self.freshly_placed(),
                self.straight_runs(),
                self.label() == old(self).label(),
                self.fleet().len() == k,
                self.fleet_kinds() == catalog().take(k as int),
                layout_from_draws(dv, k as nat) == Some(self.fleet_points()),
            decreases 5 - k,
        {
            let kind = kinds[k];
            let ghost layout = self.fleet_points();
            if k >= draws.len() {
                proof {
                    assert(draws_for(dv, k as int) =~= Seq::<(usize, usize, usize)>::empty());
                    lemma_layout_none_stays(dv, (k + 1) as nat, 5);
                }
                return false;
            }
            let ds: &Vec<(usize, usize, usize)> = &draws[k];
            proof {
                assert(draws_for(dv, k as int) == ds@);
            }
            let mut placed: bool = false;
            let mut t: usize = 0;
            proof {
                assert(ds@.subrange(0, ds@.len() as int) =~= ds@);
                assert(ds@.subrange(ds@.len() as int, ds@.len() as int) =~= Seq::<
                    (usize, usize, usize),
                >::empty());
            }
            while t < ds.len()
                invariant_except_break
                    !placed,
                    layout == self.fleet_points(),
                    self.fleet().len() == k,
                    self.fleet_kinds() == catalog().take(k as int),
                    first_fit(layout, ds@, kind) == first_fit(
                        layout,
                        ds@.subrange(t as int, ds@.len() as int),
                        kind,
                    ),
                invariant
                    kinds@ == catalog(),
                    0 <= k < 5,
                    kind == catalog()[k as int],
                    dv == draw_lists(draws@),
                    draws_for(dv, k as int) == ds@,
                    ds@.subrange(ds@.len() as int, ds@.len() as int) == Seq::<
                        (usize, usize, usize),
                    >::empty(),
                    0 <= t <= ds@.len(),
                    self.wf(),
                    self.freshly_placed(),
                    self.straight_runs(),
                    self.label() == old(self).label(),
                    layout_from_draws(dv, k as nat) == Some(layout),
                ensures
                    placed ==> self.fleet().len() == k + 1 && self.fleet_kinds() == catalog().take(
                        k + 1,
                    ) && first_fit(layout, ds@, kind) == Some(
                        self.fleet_points()[k as int],
                    ) && self.fleet_points() == layout.push(self.fleet_points()[k as int]),
                    !placed ==> self.fleet().len() == k && self.fleet_kinds() == catalog().take(
                        k as int,
                    ) && first_fit(layout, ds@, kind) is None && layout == self.fleet_points(),
                decreases ds@.len() - t,
            {
                let (oi, r, c) = ds[t];
                let ghost rest = ds@.subrange(t as int, ds@.len() as int);
                proof {
                    assert(rest[0] == ds@[t as int]);
                    assert(rest.drop_first() =~= ds@.subrange(t + 1, ds@.len() as int));
                }
                if r < ROWS && c < COLS {
                    let orient = ShipOrientation::from_index(oi);
                    proof {
                        lemma_fits_iff_free(*self, r as int, c as int, orient, kind.length());
                    }
                    let ghost before = *self;
                    if self.place_ship(r, c, orient, kind) {
                        proof {
                            let cells = self.fleet().last().coords();
                            lemma_fresh_after_add(before, *self, kind, cells);
                            assert(catalog().take(k + 1) =~= catalog().take(k as int).push(kind));
                            assert(self.fleet_points() =~= layout.push(as_points(cells))) by {
                                assert forall|j: int| 0 <= j < k implies self.fleet_points()[j]
                                    == layout[j] by {
                                    assert(self.fleet()[j] == before.fleet()[j]);
                                }
                            }
                            assert(first_fit(layout, rest, kind) == Some(as_points(cells)));
                            assert(self.fleet_points()[k as int] == as_points(cells));
                            lemma_straight_after_add(before, *self, r as int, c as int, orient, kind);
                        }
                        placed = true;
                        break;
                    }
                } else {
                    proof {
                        let o = ShipOrientation::of_index(oi);
                        assert(step(r as int, c as int, o, 0) == (r as int, c as int));
                        assert(!draw_fits(layout, ds@[t as int], kind));
                    }
                }
                t += 1;
            }
            if !placed {
                proof {
                    lemma_layout_none_stays(dv, (k + 1) as nat, 5);
                }
                return false;
            }
            k += 1;
        }
        proof {
            assert(catalog().take(5) =~= catalog());
        }
        true
    }

    /// Place the whole fleet at random. Each of up to `max_global_restarts`
    /// attempts draws, for each kind in catalog order, `max_tries_per_ship`
    /// origins and orientations, and hands them to `place_fleet_from_draws`;
    /// `Ok` once one attempt places every kind.
    pub fn auto_place_ships(
        &mut self,
        max_tries_per_ship: usize,
        max_global_restarts: usize,
        rng: &mut StdRng,
    ) -> (res: Result<(), ()>)
        requires
            old(self).wf(),
        ensures
            final(self).wf(),
            final(self).label() == old(self).label(),
            res is Ok ==> final(self).fleet_kinds() == catalog() && final(self).freshly_placed()
                && final(self).straight_runs(),
            res is Err && max_global_restarts > 0 ==> final(self).freshly_placed()
                && final(self).fleet_kinds().len() < 5 && final(self).fleet_kinds() == catalog().take(
                final(self).fleet_kinds().len() as int,
            ),
            max_tries_per_ship == 0 || max_global_restarts == 0 ==> res is Err,
    {
        let mut attempt: usize = 0;
        while attempt < max_global_restarts
            invariant
                self.wf(),
                self.label() == old(self).label(),
                attempt > 0 ==> self.freshly_placed() && self.fleet_kinds().len() < 5
                    && self.fleet_kinds() == catalog().take(self.fleet_kinds().len() as int),
            decreases max_global_restarts - attempt,
        {
            let draws = draw_attempt(max_tries_per_ship, rng);
            let placed = self.place_fleet_from_draws(&draws);
            if placed {
                proof {
                    assert(catalog().take(5) =~= catalog());
                }
                return Ok(());
            }
            proof {
                if max_tries_per_ship == 0 {
                    let dv = draw_lists(draws@);
                    assert(draws_for(dv, 0) =~= Seq::<(usize, usize, usize)>::empty());
                    lemma_layout_none_stays(dv, 1, 5);
                }
            }
            attempt += 1;
        }
        Err(())
    }
}


/// The cells covered by the ships of `ships`.
pub open spec fn covered(ships: Seq<Ship>) -> Set<(usize, usize)>
    decreases ships.len(),
{
    if ships.len() == 0 {
        Set::empty()
    } else {
        covered(ships.drop_last()) + ships.last().coords().to_set()
    }
}

/// The kinds of the ships of `ships`, in order.
pub open spec fn kinds_of(ships: Seq<Ship>) -> Seq<ShipType> {
    ships.map_values(|s: Ship| s.ship_type())
}

proof fn lemma_covered_len(ships: Seq<Ship>)
    requires
        forall|k: int| 0 <= k < ships.len() ==> (#[trigger] ships[k]).wf(),
        forall|k1: int, a1: int, k2: int, a2: int|
            0 <= k1 < ships.len() && 0 <= k2 < ships.len() && k1 != k2 && 0 <= a1
                < ships[k1].coords().len() && 0 <= a2 < ships[k2].coords().len()
                ==> #[trigger] ships[k1].coords()[a1] != #[trigger] ships[k2].coords()[a2],
    ensures
        covered(ships).finite(),
        covered(ships).len() == total_length(kinds_of(ships)),
        forall|p: (usize, usize)|
            #[trigger] covered(ships).contains(p) ==> exists|k: int, a: int|
                0 <= k < ships.len() && 0 <= a < ships[k].coords().len() && ships[k].coords()[a]
                    == p,
    decreases ships.len(),
{
    if ships.len() > 0 {
        let n = ships.len() - 1;
        let init = ships.drop_last();
        let last = ships.last();
        assert forall|k: int| 0 <= k < init.len() implies (#[trigger] init[k]).wf() by {
            assert(init[k] == ships[k]);
        }
        assert forall|k1: int, a1: int, k2: int, a2: int|
            0 <= k1 < init.len() && 0 <= k2 < init.len() && k1 != k2 && 0 <= a1
                < init[k1].coords().len() && 0 <= a2 < init[k2].coords().len() implies #[trigger] init[k1].coords()[a1]
            != #[trigger] init[k2].coords()[a2] by {
            assert(init[k1] == ships[k1]);
            assert(init[k2] == ships[k2]);
            assert(ships[k1].coords()[a1] != ships[k2].coords()[a2]);
        }
        lemma_covered_len(init);
        assert(last == ships[n]);
        assert(last.wf());
        last.coords().unique_seq_to_set();
        assert(covered(init).disjoint(last.coords().to_set())) by {
            assert forall|p: (usize, usize)|
                covered(init).contains(p) implies !last.coords().to_set().contains(p) by {
                let (k, a) = choose|k: int, a: int|
                    0 <= k < init.len() && 0 <= a < init[k].coords().len() && init[k].coords()[a]
                        == p;
                assert(init[k] == ships[k]);
                if last.coords().to_set().contains(p) {
                    let b = choose|b: int| 0 <= b < last.coords().len() && last.coords()[b] == p;
                    assert(ships[k].coords()[a] != ships[n].coords()[b]);
                }
            }
        }
        vstd::set_lib::lemma_set_disjoint_lens(covered(init), last.coords().to_set());
        assert(kinds_of(ships).drop_last() =~= kinds_of(init));
        assert forall|p: (usize, usize)| #[trigger] covered(ships).contains(p) implies exists|k: int, a: int|
            0 <= k < ships.len() && 0 <= a < ships[k].coords().len() && ships[k].coords()[a] == p by {
            if covered(init).contains(p) {
                let (k, a) = choose|k: int, a: int|
                    0 <= k < init.len() && 0 <= a < init[k].coords().len() && init[k].coords()[a]
                        == p;
                assert(init[k] == ships[k]);
            } else {
                let b = choose|b: int| 0 <= b < last.coords().len() && last.coords()[b] == p;
                assert(ships[n].coords()[b] == p);
            }
        }
    }
}

/// A consistent player whose fleet holds one ship of each catalog kind, in
/// catalog order (what a successful `auto_place_ships` leaves), has ships on
/// pairwise disjoint cells, covering 5 + 4 + 3 + 3 + 2 = 17 cells in all.
pub proof fn lemma_full_fleet_covers_seventeen(p: Player)
    requires
        p.wf(),
        p.fleet_kinds() == catalog(),
    ensures
        forall|k1: int, k2: int|
            0 <= k1 < p.fleet().len() && 0 <= k2 < p.fleet().len() && k1 != k2
                ==> (#[trigger] p.fleet()[k1]).coords().to_set().disjoint(
                (#[trigger] p.fleet()[k2]).coords().to_set(),
            ),
        covered(p.fleet()).len() == 17,
{
    lemma_covered_len(p.fleet());
    reveal_with_fuel(total_length, 6);
    assert(catalog().drop_last().drop_last().drop_last().drop_last().drop_last().len() == 0);
    assert forall|k1: int, k2: int|
        0 <= k1 < p.fleet().len() && 0 <= k2 < p.fleet().len() && k1 != k2 implies (
        #[trigger] p.fleet()[k1]).coords().to_set().disjoint(
        (#[trigger] p.fleet()[k2]).coords().to_set(),
    ) by {
        assert forall|q: (usize, usize)|
            p.fleet()[k1].coords().to_set().contains(q) implies !p.fleet()[k2].coords().to_set().contains(
            q,
        ) by {
            let a = choose|a: int| 0 <= a < p.fleet()[k1].coords().len() && p.fleet()[k1].coords()[a] == q;
            if p.fleet()[k2].coords().to_set().contains(q) {
                let b = choose|b: int|
                    0 <= b < p.fleet()[k2].coords().len() && p.fleet()[k2].coords()[b] == q;
                assert(p.fleet()[k1].coords()[a] != p.fleet()[k2].coords()[b]);
            }
        }
    }
}


/// The draws as lists of plain values.
pub open spec fn draw_lists(draws: Seq<Vec<(usize, usize, usize)>>) -> Seq<Seq<(usize, usize, usize)>> {
    draws.map_values(|v: Vec<(usize, usize, usize)>| v@)
}

/// The draws for kind `k`; none where the lists run out.
pub open spec fn draws_for(draws: Seq<Seq<(usize, usize, usize)>>, k: int) -> Seq<(usize, usize, usize)> {
    if 0 <= k < draws.len() {
        draws[k]
    } else {
        Seq::empty()
    }
}

/// Some ship of `layout` covers `p`.
pub open spec fn covers(layout: Seq<Seq<(int, int)>>, p: (int, int)) -> bool {
    exists|j: int, a: int| 0 <= j < layout.len() && 0 <= a < layout[j].len() && #[trigger] layout[j][a] == p
}

/// A ship of kind `kind` placed by draw `d` lies on the board clear of `layout`.
pub open spec fn draw_fits(layout: Seq<Seq<(int, int)>>, d: (usize, usize, usize), kind: ShipType) -> bool {
    forall|i: int|
        0 <= i < kind.length() ==> {
            let p = #[trigger] step(d.1 as int, d.2 as int, ShipOrientation::of_index(d.0), i);
            in_bounds(p.0, p.1) && !covers(layout, p)
        }
}

/// The cells of the first draw of `ds` at which a ship of kind `kind` fits
/// clear of `layout`, if any.
pub open spec fn first_fit(
    layout: Seq<Seq<(int, int)>>,
    ds: Seq<(usize, usize, usize)>,
    kind: ShipType,
) -> Option<Seq<(int, int)>>
    decreases ds.len(),
{
    if ds.len() == 0 {
        None
    } else if draw_fits(layout, ds[0], kind) {
        Some(placement(ds[0].1 as int, ds[0].2 as int, ShipOrientation::of_index(ds[0].0), kind.length()))
    } else {
        first_fit(layout, ds.drop_first(), kind)
    }
}

/// The cells of the first `k` catalog kinds as one attempt places them from
/// `draws`, or `None` if one of them finds no fitting draw.
pub open spec fn layout_from_draws(draws: Seq<Seq<(usize, usize, usize)>>, k: nat) -> Option<
    Seq<Seq<(int, int)>>,
>
    decreases k,
{
    if k == 0 {
        Some(Seq::empty())
    } else {
        match layout_from_draws(draws, (k - 1) as nat) {
            None => None,
            Some(l) => match first_fit(l, draws_for(draws, k - 1), catalog()[k - 1]) {
                None => None,
                Some(cells) => Some(l.push(cells)),
            },
        }
    }
}

proof fn lemma_layout_none_stays(draws: Seq<Seq<(usize, usize, usize)>>, j: nat, m: nat)
    requires
        layout_from_draws(draws, j) is None,
        j <= m,
    ensures
        layout_from_draws(draws, m) is None,
    decreases m - j,
{
    if j < m {
        lemma_layout_none_stays(draws, j, (m - 1) as nat);
    }
}

/// On a freshly placed board a cell shows `Empty` exactly when no ship covers it.
proof fn lemma_shows_empty_iff_free(p: Player, r: int, c: int)
    requires
        p.wf(),
        p.freshly_placed(),
        in_bounds(r, c),
    ensures
        (p.grid().cell(r, c).current() == CellState::Empty) == !covers(p.fleet_points(), (r, c)),
{
    let pts = p.fleet_points();
    if covers(pts, (r, c)) {
        let (j, a) = choose|j: int, a: int| 0 <= j < pts.len() && 0 <= a < pts[j].len() && #[trigger] pts[j][a] == (r, c);
        assert(pts[j] == as_points(p.fleet()[j].coords()));
        let q = p.fleet()[j].coords()[a];
        assert(as_points(p.fleet()[j].coords())[a] == (q.0 as int, q.1 as int));
        assert(p.grid().cell(q.0 as int, q.1 as int) == Cell::blank().committed(
            CellState::OwnShip(p.fleet()[j].ship_type()),
        ));
    } else {
        if p.owns(r, c) {
            let (k, a) = choose|k: int, a: int|
                0 <= k < p.fleet().len() && 0 <= a < p.fleet()[k].coords().len() && (
                #[trigger] p.fleet()[k].coords()[a]).0 == r && p.fleet()[k].coords()[a].1 == c;
            assert(pts[k] == as_points(p.fleet()[k].coords()));
            assert(pts[k][a] == (r, c));
        }
    }
}

/// On a freshly placed board a ship fits exactly where it is on the board and
/// clear of the fleet.
proof fn lemma_fits_iff_free(p: Player, row: int, col: int, o: ShipOrientation, len: nat)
    requires
        p.wf(),
        p.freshly_placed(),
    ensures
        p.grid().fits(row, col, o, len) == forall|i: int|
            0 <= i < len ==> {
                let q = #[trigger] step(row, col, o, i);
                in_bounds(q.0, q.1) && !covers(p.fleet_points(), q)
            },
{
    assert forall|i: int| 0 <= i < len && in_bounds(#[trigger] step(row, col, o, i).0, step(row, col, o, i).1) implies (p.grid().cell(
        step(row, col, o, i).0,
        step(row, col, o, i).1,
    ).current() == CellState::Empty) == !covers(p.fleet_points(), step(row, col, o, i)) by {
        lemma_shows_empty_iff_free(p, step(row, col, o, i).0, step(row, col, o, i).1);
    }
}

/// Adding a ship placed from an origin in a direction keeps every ship a straight run.
proof fn lemma_straight_after_add(before: Player, after: Player, row: int, col: int, o: ShipOrientation, kind: ShipType)
    requires
        before.straight_runs(),
        after.extends(before, kind, after.fleet().last().coords()),
        as_points(after.fleet().last().coords()) == placement(row, col, o, kind.length()),
    ensures
        after.straight_runs(),
{
    let n = before.fleet().len() as int;
    assert forall|k: int| 0 <= k < after.fleet().len() implies exists|r: int, c: int, d: ShipOrientation|
        as_points((#[trigger] after.fleet()[k]).coords()) == #[trigger] placement(
            r,
            c,
            d,
            after.fleet()[k].ship_type().length(),
        ) by {
        if k < n {
            assert(after.fleet()[k] == before.fleet()[k]);
            assert(exists|r: int, c: int, d: ShipOrientation|
                as_points(before.fleet()[k].coords()) == #[trigger] placement(
                    r,
                    c,
                    d,
                    before.fleet()[k].ship_type().length(),
                ));
        } else {
            assert(after.fleet()[k] == after.fleet().last());
            assert(as_points(after.fleet()[k].coords()) == placement(row, col, o, after.fleet()[k].ship_type().length()));
        }
    }
}

/// One attempt's draws: `tries` draws for each catalog kind.
fn draw_attempt(tries: usize, rng: &mut StdRng) -> (draws: Vec<Vec<(usize, usize, usize)>>)
    ensures
        draws@.len() == 5,
        forall|k: int| 0 <= k < 5 ==> (#[trigger] draws@[k])@.len() == tries,
        forall|k: int, t: int|
            0 <= k < 5 && 0 <= t < tries ==> {
                let d = #[trigger] draws@[k]@[t];
                d.0 < 4 && d.1 < ROWS && d.2 < COLS
            },
{
    let mut draws: Vec<Vec<(usize, usize, usize)>> = Vec::new();
    let mut k: usize = 0;
    while k < 5
        invariant
            0 <= k <= 5,
            draws@.len() == k,
            forall|j: int| 0 <= j < k ==> (#[trigger] draws@[j])@.len() == tries,
            forall|j: int, t: int|
                0 <= j < k && 0 <= t < tries ==> {
                    let d = #[trigger] draws@[j]@[t];
                    d.0 < 4 && d.1 < ROWS && d.2 < COLS
                },
        decreases 5 - k,
    {
        let mut ds: Vec<(usize, usize, usize)> = Vec::new();
        let mut t: usize = 0;
        while t < tries
            invariant
                0 <= t <= tries,
                ds@.len() == t,
                forall|i: int|
                    0 <= i < t ==> {
                        let d = #[trigger] ds@[i];
                        d.0 < 4 && d.1 < ROWS && d.2 < COLS
                    },
            decreases tries - t,
        {
            let o = draw_below(rng, 4);
            let r = draw_below(rng, ROWS);
            let c = draw_below(rng, COLS);
            ds.push((o, r, c));
            t += 1;
        }
        draws.push(ds);
        k += 1;
    }
    draws
}

} // verus!
