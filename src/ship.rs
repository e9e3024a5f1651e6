//! Ship kinds, orientations and placed ships.
use vstd::prelude::*;

use crate::board::{in_bounds, Board, CellState};

verus! {

/// The four directions in which a ship extends from its origin cell.
#[derive(Clone, Copy, PartialEq, Eq, Structural, Debug)]
pub enum ShipOrientation {
    Left,
    Up,
    Right,
    Down,
}

/// The cell reached after `i` steps from `(row, col)` in direction `o`.
pub open spec fn step(row: int, col: int, o: ShipOrientation, i: int) -> (int, int) {
    match o {
        ShipOrientation::Left => (row, col - i),
        ShipOrientation::Up => (row - i, col),
        ShipOrientation::Right => (row, col + i),
        ShipOrientation::Down => (row + i, col),
    }
}

impl ShipOrientation {
    /// The next orientation in clockwise order.
    pub open spec fn clockwise(self) -> ShipOrientation {
        match self {
            ShipOrientation::Left => ShipOrientation::Up,
            ShipOrientation::Up => ShipOrientation::Right,
            ShipOrientation::Right => ShipOrientation::Down,
            ShipOrientation::Down => ShipOrientation::Left,
        }
    }

    /// The orientation that a draw `i` from `0..4` stands for.
    pub open spec fn of_index(i: usize) -> ShipOrientation {
        if i == 0 {
            ShipOrientation::Left
        } else if i == 1 {
            ShipOrientation::Up
        } else if i == 2 {
            ShipOrientation::Right
        } else {
            ShipOrientation::Down
        }
    }

    /// Given the current ship orientation, return the next orientation in clockwise order.
    pub fn next(&self) -> (r: ShipOrientation)
        ensures
            r == self.clockwise(),
    {
        match self {
            ShipOrientation::Left => ShipOrientation::Up,
            ShipOrientation::Up => ShipOrientation::Right,
            ShipOrientation::Right => ShipOrientation::Down,
            ShipOrientation::Down => ShipOrientation::Left,
        }
    }

    /// Map a uniform draw from `0..4` to an orientation; any larger value means `Down`.
    pub fn from_index(i: usize) -> (r: ShipOrientation)
        ensures
            r == ShipOrientation::of_index(i),
    {
        if i == 0 {
            ShipOrientation::Left
        } else if i == 1 {
            ShipOrientation::Up
        } else if i == 2 {
            ShipOrientation::Right
        } else {
            ShipOrientation::Down
        }
    }
}

/// The kinds of ship in the fleet.
#[derive(Clone, Copy, PartialEq, Eq, Structural, Debug)]
pub enum ShipType {
    Carrier,
    Battleship,
    Destroyer,
    Submarine,
    PatrolBoat,
}

/// Every ship kind, in the order in which a fleet is placed.
pub open spec fn catalog() -> Seq<ShipType> {
    seq![
        ShipType::Carrier,
        ShipType::Battleship,
        ShipType::Destroyer,
        ShipType::Submarine,
        ShipType::PatrolBoat,
    ]
}

/// The sum of the lengths of `kinds`.
pub open spec fn total_length(kinds: Seq<ShipType>) -> nat
    decreases kinds.len(),
{
    if kinds.len() == 0 {
        0
    } else {
        total_length(kinds.drop_last()) + kinds.last().length()
    }
}

impl ShipType {
    /// How many cells a ship of this kind covers.
    pub open spec fn length(self) -> nat {
        match self {
            ShipType::Carrier => 5,
            ShipType::Battleship => 4,
            ShipType::Destroyer => 3,
            ShipType::Submarine => 3,
            ShipType::PatrolBoat => 2,
        }
    }

    /// The one-letter symbol that marks this kind on a board.
    pub open spec fn letter(self) -> char {
        match self {
            ShipType::Carrier => 'C',
            ShipType::Battleship => 'B',
            ShipType::Destroyer => 'D',
            ShipType::Submarine => 'S',
            ShipType::PatrolBoat => 'P',
        }
    }

    /// The name shown for this kind.
    pub open spec fn title(self) -> &'static str {
        match self {
            ShipType::Carrier => "Carrier",
            ShipType::Battleship => "Battleship",
            ShipType::Destroyer => "Destroyer",
            ShipType::Submarine => "Submarine",
            ShipType::PatrolBoat => "Patrol Boat",
        }
    }

    /// The name shown for this kind.
    pub fn name(&self) -> (r: &'static str)
        ensures
            r == self.title(),
    {
        match self {
            ShipType::Carrier => "Carrier",
            ShipType::Battleship => "Battleship",
            ShipType::Destroyer => "Destroyer",
            ShipType::Submarine => "Submarine",
            ShipType::PatrolBoat => "Patrol Boat",
        }
    }

    /// All ship kinds, in catalog order.
    pub fn iter() -> (r: Vec<ShipType>)
        ensures
            r@ == catalog(),
    {
        let r = vec![
            ShipType::Carrier,
            ShipType::Battleship,
            ShipType::Destroyer,
            ShipType::Submarine,
            ShipType::PatrolBoat,
        ];
        assert(r@ == catalog());
        r
    }

    /// Get the size of this ship.
    pub fn size(&self) -> (r: usize)
        ensures
            r == self.length(),
    {
        match self {
            ShipType::Carrier => 5,
            ShipType::Battleship => 4,
            ShipType::Destroyer => 3,
            ShipType::Submarine => 3,
            ShipType::PatrolBoat => 2,
        }
    }

    /// Get the display symbol for this ship.
    pub fn symbol(&self) -> (r: char)
        ensures
            r == self.letter(),
    {
        match self {
            ShipType::Carrier => 'C',
            ShipType::Battleship => 'B',
            ShipType::Destroyer => 'D',
            ShipType::Submarine => 'S',
            ShipType::PatrolBoat => 'P',
        }
    }
}

/// A placed ship: its kind and the board coordinates it occupies.
pub struct Ship {
    pub(crate) kind: ShipType,
    pub(crate) cells: Vec<(usize, usize)>,
}

/// Whether `cells` can be the coordinates of a ship of kind `kind`: the right
/// number of them, all on the board, none repeated.
pub open spec fn valid_cells(kind: ShipType, cells: Seq<(usize, usize)>) -> bool {
    &&& cells.len() == kind.length()
    &&& forall|i: int| 0 <= i < cells.len() ==> in_bounds(#[trigger] cells[i].0 as int, cells[i].1 as int)
    &&& cells.no_duplicates()
}

impl Ship {
    pub open(crate) spec fn ship_type(self) -> ShipType {
        self.kind
    }

    pub open(crate) spec fn coords(self) -> Seq<(usize, usize)> {
        self.cells@
    }

    pub open spec fn wf(self) -> bool {
        valid_cells(self.ship_type(), self.coords())
    }

    /// Whether every cell of this ship shows a hit on `board`.
    pub open spec fn sunk_on(self, board: Board) -> bool {
        forall|i: int|
            0 <= i < self.coords().len() ==> (#[trigger] board.cell(
                self.coords()[i].0 as int,
                self.coords()[i].1 as int,
            )).current() == CellState::HitShip
    }

    /// A ship of kind `kind` on `cells`, which a successful placement check produced.
    pub fn new(kind: ShipType, cells: Vec<(usize, usize)>) -> (r: Ship)
        requires
            valid_cells(kind, cells@),
        ensures
            r.ship_type() == kind,
            r.coords() == cells@,
            r.wf(),
    {
        Ship { kind, cells }
    }

    pub fn get_ship_type(&self) -> (r: ShipType)
        ensures
            r == self.ship_type(),
    {
        self.kind
    }

    pub fn get_cells(&self) -> (r: &Vec<(usize, usize)>)
        ensures
            r@ == self.coords(),
    {
        &self.cells
    }

    /// Check whether this ship is sunk: every cell it covers shows a hit.
    pub fn is_sunk(&self, board: &Board) -> (r: bool)
        requires
            self.wf(),
            board.wf(),
        ensures
            r == self.sunk_on(*board),
    {
        let mut i: usize = 0;
        while i < self.cells.len()
            invariant
                self.wf(),
                board.wf(),
                0 <= i <= self.cells@.len(),
                forall|j: int|
                    0 <= j < i ==> (#[trigger] board.cell(
                        self.coords()[j].0 as int,
                        self.coords()[j].1 as int,
                    )).current() == CellState::HitShip,
            decreases self.cells@.len() - i,
        {
            let (row, col) = self.cells[i];
            assert(in_bounds(self.cells@[i as int].0 as int, self.cells@[i as int].1 as int));
            let cell = board.get(row, col);
            if cell.get_state() != CellState::HitShip {
                return false;
            }
            i += 1;
        }
        true
    }
}

} // verus!
