//! Interactive fleet setup: the preview of a placement under the cursor.
use vstd::prelude::*;

use crate::board::{as_points, in_bounds, placement, Board, CellState, COLS, ROWS};
use crate::ship::{step, ShipOrientation, ShipType};

verus! {

/// How the setup screen ended.
#[derive(Clone, Copy, PartialEq, Eq, Structural, Debug)]
pub enum ShipSetupOption {
    /// Every ship is placed and the player confirmed.
    Continue,
    /// The player left the game.
    Quit,
}

/// The cells to mark for a ship of kind `ship_type` placed from
/// `selected_cell` in direction `orientation`: the cells it would cover, from
/// the origin up to the first one off the board. The overlay to draw them with
/// is `Highlighted` when the ship fits there (every cell on the board and
/// showing `Empty`) and `InvalidPlacement` otherwise.
pub fn get_ship_placement_cell_states(
    board: &Board,
    ship_type: &ShipType,
    orientation: &ShipOrientation,
    selected_cell: &(usize, usize),
) -> (r: (Vec<(usize, usize)>, CellState))
    requires
        board.wf(),
        in_bounds(selected_cell.0 as int, selected_cell.1 as int),
    ensures
        ({
            let (row, col, len, k) = (
                selected_cell.0 as int,
                selected_cell.1 as int,
                ship_type.length(),
                r.0@.len(),
            );
            &&& k <= len
            &&& as_points(r.0@) == placement(row, col, *orientation, len).take(k as int)
            &&& forall|i: int|
                0 <= i < k ==> in_bounds(
                    #[trigger] step(row, col, *orientation, i).0,
                    step(row, col, *orientation, i).1,
                )
            &&& k < len ==> !in_bounds(
                step(row, col, *orientation, k as int).0,
                step(row, col, *orientation, k as int).1,
            )
        }),
        r.1 == if board.fits(
            selected_cell.0 as int,
            selected_cell.1 as int,
            *orientation,
            ship_type.length(),
        ) {
            CellState::Highlighted
        } else {
            CellState::InvalidPlacement
        },
{
    let (row, col) = *selected_cell;
    let len = ship_type.size();
    let mut indices: Vec<(usize, usize)> = Vec::new();
    let mut i: usize = 0;
    while i < len
        invariant
            in_bounds(row as int, col as int),
            len == ship_type.length(),
            0 <= i <= len,
            indices@.len() == i,
            as_points(indices@) == placement(row as int, col as int, *orientation, len as nat).take(
                i as int,
            ),
            forall|j: int|
                0 <= j < i ==> in_bounds(
                    #[trigger] step(row as int, col as int, *orientation, j).0,
                    step(row as int, col as int, *orientation, j).1,
                ),
        ensures
            i <= len,
            indices@.len() == i,
            as_points(indices@) == placement(row as int, col as int, *orientation, len as nat).take(
                i as int,
            ),
            forall|j: int|
                0 <= j < i ==> in_bounds(
                    #[trigger] step(row as int, col as int, *orientation, j).0,
                    step(row as int, col as int, *orientation, j).1,
                ),
            i < len ==> !in_bounds(
                step(row as int, col as int, *orientation, i as int).0,
                step(row as int, col as int, *orientation, i as int).1,
            ),
        decreases len - i,
    {
        let next: Option<(usize, usize)> = match orientation {
            ShipOrientation::Left => if i <= col {
                Some((row, col - i))
            } else {
                None
            },
            ShipOrientation::Up => if i <= row {
                Some((row - i, col))
            } else {
                None
            },
            ShipOrientation::Right => if i < COLS - col {
                Some((row, col + i))
            } else {
                None
            },
            ShipOrientation::Down => if i < ROWS - row {
                Some((row + i, col))
            } else {
                None
            },
        };
        match next {
            Some(p) => {
                assert(step(row as int, col as int, *orientation, i as int) == (p.0 as int, p.1 as int));
                let ghost prev = indices@;
                indices.push(p);
                assert(as_points(indices@) =~= as_points(prev).push((p.0 as int, p.1 as int)));
                assert(placement(row as int, col as int, *orientation, len as nat).take(i + 1)
                    =~= placement(row as int, col as int, *orientation, len as nat).take(
                    i as int,
                ).push((p.0 as int, p.1 as int)));
            },
            None => {
                break;
            },
        }
        i += 1;
    }
    let state = match board.try_place_ship(row, col, *orientation, *ship_type) {
        Some(_) => CellState::Highlighted,
        None => CellState::InvalidPlacement,
    };
    (indices, state)
}

} // verus!
