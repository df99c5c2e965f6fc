//! What stands on a cell: a snake, food, a hazard, or the wall around the
//! board.

use vstd::prelude::*;
use crate::geometry::Coord;
use crate::snapshot::{snake_views, Battlesnake, Board, BoardView, SnakeView};

verus! {

/// A snake covers its head cell and every cell of its body.
pub open spec fn snake_covers(snake: SnakeView, cell: Coord) -> bool {
    snake.head == cell || snake.body.contains(cell)
}

/// Some snake of the list covers the cell.
pub open spec fn snake_at(snakes: Seq<SnakeView>, cell: Coord) -> bool {
    exists|i: int| 0 <= i < snakes.len() && snake_covers(#[trigger] snakes[i], cell)
}

/// The cell lies on the board: in a column from 0 up to `width` and a row
/// from 0 up to `height`, both exclusive.
pub open spec fn on_board(board: BoardView, cell: Coord) -> bool {
    0 <= cell.x < board.width && 0 <= cell.y < board.height
}

/// The cell lies on the ring of wall cells just outside the board: in column
/// -1 or `width`, or in row -1 or `height`.
pub open spec fn on_wall(board: BoardView, cell: Coord) -> bool {
    cell.x == -1 || cell.y == -1 || cell.x == board.width || cell.y == board.height
}

/// A snake can move onto the cell: it is no wall cell and no snake covers it.
pub open spec fn open_cell(board: BoardView, cell: Coord) -> bool {
    !on_wall(board, cell) && !snake_at(board.snakes, cell)
}

/// Every cell of a snake on the board, head or body, counts as occupied.
pub proof fn lemma_snake_cells_are_occupied(snakes: Seq<SnakeView>, i: int, cell: Coord)
    requires
        0 <= i < snakes.len(),
        cell == snakes[i].head || snakes[i].body.contains(cell),
    ensures
        snake_at(snakes, cell),
{
    assert(snake_covers(snakes[i], cell));
}

/// Whether `spot` occurs in `cells`.
pub fn list_has_spot(cells: &[Coord], spot: &Coord) -> (r: bool)
    ensures
        r == cells@.contains(*spot),
{
    let mut i: usize = 0;
    while i < cells.len()
        invariant
            i <= cells.len(),
            forall|j: int| 0 <= j < i ==> cells@[j] != *spot,
        decreases cells.len() - i,
    {
        if cells[i] == *spot {
            return true;
        }
        i += 1;
    }
    false
}

/// Whether food lies on `spot`.
pub fn spot_has_food(spot: &Coord, board: &Board) -> (r: bool)
    ensures
        r == board@.food.contains(*spot),
{
    list_has_spot(board.food.as_slice(), spot)
}

/// Whether `spot` is a hazard tile.
pub fn spot_has_hazards(spot: &Coord, board: &Board) -> (r: bool)
    ensures
        r == board@.hazards.contains(*spot),
{
    list_has_spot(board.hazards.as_slice(), spot)
}

/// Whether the head or a body cell of any snake in `snakes` lies on `spot`.
pub fn spot_has_snake(spot: &Coord, snakes: &[Battlesnake]) -> (r: bool)
    ensures
        r == snake_at(snake_views(snakes@), *spot),
{
    let ghost views = snake_views(snakes@);
    let mut i: usize = 0;
    while i < snakes.len()
        invariant
            i <= snakes.len(),
            views == snake_views(snakes@),
            forall|j: int| 0 <= j < i ==> !snake_covers(#[trigger] views[j], *spot),
        decreases snakes.len() - i,
    {
        let snake = &snakes[i];
        assert(views[i as int] == snake@);
        if snake.head == *spot || list_has_spot(snake.body.as_slice(), spot) {
            return true;
        }
        i += 1;
    }
    false
}

/// Whether a snake can move onto `spot`: `spot` is neither a wall cell nor
/// covered by a snake.
pub fn valid_move(spot: &Coord, board: &Board) -> (r: bool)
    ensures
        r == open_cell(board@, *spot),
{
    if spot.y == -1 || spot.x == -1 || spot.x == board.width || spot.y == board.height {
        false
    } else {
        !spot_has_snake(spot, board.snakes.as_slice())
    }
}

} // verus!
