//! Cells, their transient overlays, and the grid that holds them.
use vstd::prelude::*;

use crate::ship::{step, ShipOrientation, ShipType};

verus! {

/// Number of rows of a board.
pub const ROWS: usize = 10;

/// Number of columns of a board.
pub const COLS: usize = 10;

/// Whether `(row, col)` lies on the board.
pub open spec fn in_bounds(row: int, col: int) -> bool {
    0 <= row < ROWS && 0 <= col < COLS
}

/// Row-major position of `(row, col)` in a board's cell sequence.
pub open spec fn cell_index(row: int, col: int) -> int {
    row * COLS + col
}

/// What occupies a board position.
#[derive(Clone, Copy, PartialEq, Eq, Structural, Debug)]
pub enum CellState {
    Empty,
    Guessed,
    OwnShip(ShipType),
    HitShip,
    Highlighted,
    InvalidPlacement,
}

impl CellState {
    /// A guess has already landed here: a hit or a miss.
    pub open spec fn is_resolved(self) -> bool {
        self is HitShip || self is Guessed
    }

    /// A guess here would change the cell: it is empty or holds an unhit ship.
    pub open spec fn is_open(self) -> bool {
        self is Empty || self is OwnShip
    }

    /// One of the states a cell can be committed to during play (not an overlay).
    pub open spec fn is_settled(self) -> bool {
        self is Empty || self is Guessed || self is OwnShip || self is HitShip
    }
}

/// The state a committed state becomes when a guess lands on it.
pub open spec fn guess_result(s: CellState) -> CellState {
    match s {
        CellState::OwnShip(_) => CellState::HitShip,
        CellState::Empty => CellState::Guessed,
        _ => s,
    }
}

/// One board position: the state shown now, and the last committed state,
/// to which a transient overlay is undone.
#[derive(Clone, Copy, Debug)]
pub struct Cell {
    pub(crate) state: CellState,
    pub(crate) prev_state: CellState,
}

impl Cell {
    /// The state the cell shows now.
    pub open(crate) spec fn current(self) -> CellState {
        self.state
    }

    /// The restore point: the last committed state, unless overlays were nested.
    pub open(crate) spec fn baseline(self) -> CellState {
        self.prev_state
    }

    pub open(crate) spec fn blank() -> Cell {
        Cell { state: CellState::Empty, prev_state: CellState::Empty }
    }

    /// The cell after a permanent change to `s`.
    pub open(crate) spec fn committed(self, s: CellState) -> Cell {
        Cell { state: s, prev_state: s }
    }

    /// The cell after a highlight overlay.
    pub open(crate) spec fn highlighted(self) -> Cell {
        Cell { state: CellState::Highlighted, prev_state: self.state }
    }

    /// The cell after an invalid-placement overlay.
    pub open(crate) spec fn invalidated(self) -> Cell {
        Cell { state: CellState::InvalidPlacement, prev_state: self.state }
    }

    /// The cell after its overlay is undone.
    pub open(crate) spec fn undone(self) -> Cell {
        Cell { state: self.prev_state, prev_state: self.prev_state }
    }

    /// The shown state is the committed one, or an overlay over it.
    pub open(crate) spec fn consistent(self) -> bool {
        self.state == self.prev_state || self.state is Highlighted || self.state is InvalidPlacement
    }

    /// The cell as an opponent may see it: neither its shown state nor its
    /// restore point reveals an unhit ship.
    pub open(crate) spec fn redacted(self) -> Cell {
        if self.state is OwnShip {
            Cell::blank()
        } else if self.prev_state is OwnShip {
            Cell { state: self.state, prev_state: CellState::Empty }
        } else {
            self
        }
    }

    /// The cell with an unhit ship shown as empty water.
    pub open(crate) spec fn hidden(self) -> Cell {
        match self.state {
            CellState::OwnShip(_) => Cell::blank(),
            _ => self,
        }
    }

    /// The cell after a guess lands on it, judged by its committed state.
    pub open(crate) spec fn guessed(self) -> Cell {
        if self.prev_state.is_open() {
            self.committed(guess_result(self.prev_state))
        } else {
            self
        }
    }

    /// Create a new empty cell.
    pub fn new() -> (r: Cell)
        ensures
            r == Cell::blank(),
    {
        Cell { state: CellState::Empty, prev_state: CellState::Empty }
    }

    /// Undo the transient overlay: show the restore point again.
    pub fn undo(&mut self)
        ensures
            *final(self) == old(self).undone(),
    {
        self.state = self.prev_state;
    }

    /// Apply the highlight overlay, keeping the current state as restore point.
    pub fn highlight(&mut self)
        ensures
            *final(self) == old(self).highlighted(),
    {
        self.prev_state = self.state;
        self.state = CellState::Highlighted;
    }

    /// Apply the invalid-placement overlay, keeping the current state as restore point.
    pub fn invalidate(&mut self)
        ensures
            *final(self) == old(self).invalidated(),
    {
        self.prev_state = self.state;
        self.state = CellState::InvalidPlacement;
    }

    /// Get the current state of the cell.
    pub fn get_state(&self) -> (r: CellState)
        ensures
            r == self.current(),
    {
        self.state
    }

    /// Get the previous (restore point) state of the cell.
    pub fn get_prev_state(&self) -> (r: CellState)
        ensures
            r == self.baseline(),
    {
        self.prev_state
    }

    /// The cell as shown on an opponent's view of the board.
    pub fn get_hidden_cell(cell: &Cell) -> (r: Cell)
        ensures
            r == cell.hidden(),
    {
        match cell.state {
            CellState::OwnShip(_) => Cell { state: CellState::Empty, prev_state: CellState::Empty },
            _ => Cell { state: cell.state, prev_state: cell.prev_state },
        }
    }
}

/// The cells that a ship of length `len` covers from `(row, col)` in direction `o`.
pub open spec fn placement(row: int, col: int, o: ShipOrientation, len: nat) -> Seq<(int, int)> {
    Seq::new(len, |i: int| step(row, col, o, i))
}

/// Coordinates as pairs of mathematical integers.
pub open spec fn as_points(v: Seq<(usize, usize)>) -> Seq<(int, int)> {
    v.map_values(|p: (usize, usize)| (p.0 as int, p.1 as int))
}

/// A fixed-size, row-major grid of cells.
pub struct Board {
    pub(crate) cells: Vec<Cell>,
}

impl Board {
    pub open(crate) spec fn cells_view(self) -> Seq<Cell> {
        self.cells@
    }

    pub open spec fn wf(self) -> bool {
        self.cells_view().len() == ROWS * COLS
    }

    /// The cell at `(row, col)`.
    pub open spec fn cell(self, row: int, col: int) -> Cell {
        self.cells_view()[cell_index(row, col)]
    }

    /// The cells of this board with the cell at `(row, col)` replaced by `c`.
    pub open spec fn with_cell(self, row: int, col: int, c: Cell) -> Seq<Cell> {
        self.cells_view().update(cell_index(row, col), c)
    }

    /// Every cell on the way from `(row, col)` in direction `o` for `len` cells is
    /// on the board and shows `Empty`.
    pub open spec fn fits(self, row: int, col: int, o: ShipOrientation, len: nat) -> bool {
        forall|i: int|
            0 <= i < len ==> {
                let p = #[trigger] step(row, col, o, i);
                in_bounds(p.0, p.1) && self.cell(p.0, p.1).current() == CellState::Empty
            }
    }

    /// Generate a new board of empty cells.
    pub fn default() -> (r: Board)
        ensures
            r.wf(),
            forall|i: int| 0 <= i < ROWS * COLS ==> #[trigger] r.cells_view()[i] == Cell::blank(),
    {
        let mut cells: Vec<Cell> = Vec::new();
        let mut i: usize = 0;
        while i < ROWS * COLS
            invariant
                0 <= i <= ROWS * COLS,
                cells@.len() == i,
                forall|j: int| 0 <= j < i ==> #[trigger] cells@[j] == Cell::blank(),
            decreases ROWS * COLS - i,
        {
            cells.push(Cell::new());
            i += 1;
        }
        Board { cells }
    }

    /// Set a cell in the board to the specified new state, permanently.
    pub fn set(&mut self, row: usize, col: usize, state: CellState)
        requires
            old(self).wf(),
        ensures
            final(self).wf(),
            in_bounds(row as int, col as int) ==> final(self).cells_view() == old(self).with_cell(
                row as int,
                col as int,
                old(self).cell(row as int, col as int).committed(state),
            ),
            !in_bounds(row as int, col as int) ==> final(self).cells_view() == old(self).cells_view(),
    {
        self.update(row, col, state);
    }

    /// Given a row and column index, return a reference to the Cell at that position.
    pub fn get(&self, row: usize, col: usize) -> (r: &Cell)
        requires
            self.wf(),
            in_bounds(row as int, col as int),
        ensures
            *r == self.cell(row as int, col as int),
    {
        &self.cells[row * COLS + col]
    }

    /// A mutable reference to the Cell at `(row, col)`.
    pub fn get_mut(&mut self, row: usize, col: usize) -> (r: &mut Cell)
        requires
            old(self).wf(),
            in_bounds(row as int, col as int),
        ensures
            *r == old(self).cell(row as int, col as int),
            final(self).cells_view() == old(self).with_cell(row as int, col as int, *final(r)),
    {
        &mut self.cells[row * COLS + col]
    }

    /// Apply the highlight overlay to the cell at `(row, col)`.
    pub fn highlight_cell(&mut self, row: usize, col: usize)
        requires
            old(self).wf(),
            in_bounds(row as int, col as int),
        ensures
            final(self).cells_view() == old(self).with_cell(
                row as int,
                col as int,
                old(self).cell(row as int, col as int).highlighted(),
            ),
    {
        self.get_mut(row, col).highlight();
    }

    /// Undo the overlay on the cell at `(row, col)`.
    pub fn undo(&mut self, row: usize, col: usize)
        requires
            old(self).wf(),
            in_bounds(row as int, col as int),
        ensures
            final(self).cells_view() == old(self).with_cell(
                row as int,
                col as int,
                old(self).cell(row as int, col as int).undone(),
            ),
    {
        self.get_mut(row, col).undo();
    }

    /// Commit `state` to the cell at `(row, col)`: both the shown state and the
    /// restore point become `state`. Coordinates off the board change nothing.
    pub fn update(&mut self, row: usize, col: usize, state: CellState)
        requires
            old(self).wf(),
        ensures
            final(self).wf(),
            in_bounds(row as int, col as int) ==> final(self).cells_view() == old(self).with_cell(
                row as int,
                col as int,
                old(self).cell(row as int, col as int).committed(state),
            ),
            !in_bounds(row as int, col as int) ==> final(self).cells_view() == old(self).cells_view(),
    {
        if row < ROWS && col < COLS {
            let i = row * COLS + col;
            self.cells.set(i, Cell { state, prev_state: state });
        }
    }

    /// Check whether a ship of kind `ship_type` fits from `(r, c)` in direction
    /// `orient`: every cell it would cover is on the board and shows `Empty`.
    /// The walk stops at the first step that leaves the board or lands on a
    /// cell showing anything else.
    /// On success the covered cells are returned in order from the origin; the
    /// board is not changed.
    pub fn try_place_ship(
        &self,
        r: usize,
        c: usize,
        orient: ShipOrientation,
        ship_type: ShipType,
    ) -> (res: Option<Vec<(usize, usize)>>)
        requires
            self.wf(),
            in_bounds(r as int, c as int),
        ensures
            res is Some <==> self.fits(r as int, c as int, orient, ship_type.length()),
            res matches Some(v) ==> as_points(v@) == placement(
                r as int,
                c as int,
                orient,
                ship_type.length(),
            ),
    {
        let ship_length: usize = ship_type.size();
        let mut indices: Vec<(usize, usize)> = Vec::new();
        let mut i: usize = 0;
        while i < ship_length
            invariant
                self.wf(),
                in_bounds(r as int, c as int),
                ship_length == ship_type.length(),
                0 <= i <= ship_length,
                self.fits(r as int, c as int, orient, i as nat),
                as_points(indices@) == placement(r as int, c as int, orient, i as nat),
            decreases ship_length - i,
        {
            let (nr, nc): (usize, usize) = match orient {
                ShipOrientation::Up => {
                    if i > r {
                        assert(!in_bounds(step(r as int, c as int, orient, i as int).0, step(r as int, c as int, orient, i as int).1));
                        return None;
                    }
                    (r - i, c)
                },
                ShipOrientation::Down => {
                    if i >= ROWS - r {
                        assert(!in_bounds(step(r as int, c as int, orient, i as int).0, step(r as int, c as int, orient, i as int).1));
                        return None;
                    }
                    (r + i, c)
                },
                ShipOrientation::Left => {
                    if i > c {
                        assert(!in_bounds(step(r as int, c as int, orient, i as int).0, step(r as int, c as int, orient, i as int).1));
                        return None;
                    }
                    (r, c - i)
                },
                ShipOrientation::Right => {
                    if i >= COLS - c {
                        assert(!in_bounds(step(r as int, c as int, orient, i as int).0, step(r as int, c as int, orient, i as int).1));
                        return None;
                    }
                    (r, c + i)
                },
            };
            assert(step(r as int, c as int, orient, i as int) == (nr as int, nc as int));
            if self.get(nr, nc).get_state() != CellState::Empty {
                return None;
            }
            let ghost prev = indices@;
            indices.push((nr, nc));
            assert(as_points(indices@) =~= as_points(prev).push((nr as int, nc as int)));
            assert(placement(r as int, c as int, orient, (i + 1) as nat) =~= placement(
                r as int,
                c as int,
                orient,
                i as nat,
            ).push((nr as int, nc as int)));
            i += 1;
        }
        Some(indices)
    }
}

/// Committing a state to a cell of a board twice leaves the board as one
/// commit does, with both the shown state and the restore point equal to it.
pub proof fn lemma_commit_idempotent(b: Board, row: int, col: int, s: CellState)
    requires
        b.wf(),
        in_bounds(row, col),
    ensures
        ({
            let i = cell_index(row, col);
            let once = b.with_cell(row, col, b.cell(row, col).committed(s));
            &&& once.update(i, once[i].committed(s)) == once
            &&& once[i].current() == s
            &&& once[i].baseline() == s
        }),
{
    let i = cell_index(row, col);
    let once = b.with_cell(row, col, b.cell(row, col).committed(s));
    assert(0 <= i < b.cells_view().len());
    assert(once.update(i, once[i].committed(s)) =~= once);
}

/// A highlight followed at once by an undo shows again the state the cell
/// showed before the highlight.
pub proof fn lemma_highlight_undo_restores(c: Cell)
    ensures
        c.highlighted().undone().current() == c.current(),
{
}

} // verus!
