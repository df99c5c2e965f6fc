//! The score of a candidate cell: a base value for what the cell is, and a
//! modifier for what moving there would mean.

use vstd::prelude::*;
use crate::geometry::Coord;
use crate::occupancy::{
    on_wall, snake_at, spot_has_food, spot_has_hazards, spot_has_snake, valid_move,
};
use crate::snapshot::{Battlesnake, Board, BoardView, SnakeView};
use crate::space::{capped_room, remaining_space};
use crate::threat::{spot_might_have_snake, threatened};

verus! {

/// Base value of a cell that a snake covers.
pub const COLLISION_VALUE: i32 = -99;

/// Base value of a wall cell.
pub const WALL_VALUE: i32 = -100;

/// Base value of an open cell in column 0 or row 0.
pub const EDGE_VALUE: i32 = 60;

/// Base value of any other open cell.
pub const OPEN_VALUE: i32 = 100;

/// Taken off where a snake that would win a head-to-head may arrive.
pub const THREAT_PENALTY: i32 = 80;

/// Added for food.
pub const FOOD_BONUS: i32 = 75;

/// Taken off for a hazard by a snake with no health left over.
pub const HAZARD_COST: i32 = 100;

/// Health that a step onto a hazard costs; what is left over eases the
/// hazard's cost.
pub const HAZARD_DAMAGE: i32 = 14;

/// Added where the snake finds room for its whole length.
pub const ROOM_BONUS: i32 = 50;

/// Taken off where it does not.
pub const NO_ROOM_PENALTY: i32 = 80;

/// What a cell is worth before the modifier. The first case that applies
/// decides: a snake, the wall, the low edge, open ground.
pub open spec fn base_value(board: BoardView, cell: Coord) -> int {
    if snake_at(board.snakes, cell) {
        COLLISION_VALUE as int
    } else if on_wall(board, cell) {
        WALL_VALUE as int
    } else if cell.y == 0 || cell.x == 0 {
        EDGE_VALUE as int
    } else {
        OPEN_VALUE as int
    }
}

/// What a hazard costs a snake of the given health. Above a health of 114
/// the cost is negative.
pub open spec fn hazard_penalty(health: int) -> int {
    HAZARD_COST - (health - HAZARD_DAMAGE)
}

/// The penalty for a threatened cell.
pub open spec fn threat_part(board: BoardView, me: SnakeView, cell: Coord) -> int {
    if threatened(board.snakes, me, cell) {
        -THREAT_PENALTY
    } else {
        0
    }
}

/// The bonus for food or else the penalty for a hazard: food on a hazard
/// tile counts as food alone.
pub open spec fn tile_part(board: BoardView, me: SnakeView, cell: Coord) -> int {
    if board.food.contains(cell) {
        FOOD_BONUS as int
    } else if board.hazards.contains(cell) {
        -hazard_penalty(me.health)
    } else {
        0
    }
}

/// The bonus for enough room behind the cell, or else the penalty.
pub open spec fn room_part(board: BoardView, me: SnakeView, cell: Coord) -> int {
    if capped_room(board, cell, me.length) >= me.length {
        ROOM_BONUS as int
    } else {
        -NO_ROOM_PENALTY
    }
}

/// The modifier of a cell: the sum of its three parts.
pub open spec fn modifier(board: BoardView, me: SnakeView, cell: Coord) -> int {
    threat_part(board, me, cell) + tile_part(board, me, cell) + room_part(board, me, cell)
}

/// The score of a cell.
pub open spec fn move_value(board: BoardView, me: SnakeView, cell: Coord) -> int {
    base_value(board, cell) + modifier(board, me, cell)
}

/// The health values for which every modifier fits in an `i32`.
pub open spec fn modifier_fits(health: int) -> bool {
    i32::MIN <= -THREAT_PENALTY - hazard_penalty(health) - NO_ROOM_PENALTY
}

/// The health values for which every score fits in an `i32`.
pub open spec fn score_fits(health: int) -> bool {
    &&& i32::MIN <= WALL_VALUE - THREAT_PENALTY - hazard_penalty(health) - NO_ROOM_PENALTY
    &&& OPEN_VALUE - hazard_penalty(health) + ROOM_BONUS <= i32::MAX
}

/// Whether every score of a snake of this health fits in an `i32`.
pub fn health_can_be_scored(health: i32) -> (r: bool)
    ensures
        r == score_fits(health as int),
{
    let most_lost: i32 = HAZARD_COST + HAZARD_DAMAGE + THREAT_PENALTY + NO_ROOM_PENALTY
        - WALL_VALUE;
    let most_won: i32 = OPEN_VALUE + ROOM_BONUS - HAZARD_COST - HAZARD_DAMAGE;
    i32::MIN + most_lost <= health && health <= i32::MAX - most_won
}

/// Every health from 0 to 100, the range that a game keeps to, has scores
/// and modifiers that fit.
pub proof fn lemma_game_health_fits(health: int)
    requires
        0 <= health <= 100,
    ensures
        modifier_fits(health),
        score_fits(health),
{
}

/// A wall cell that no snake covers has the wall's base value, whatever food,
/// hazards and snakes the board holds elsewhere.
pub proof fn lemma_wall_cell_has_wall_value(board: BoardView, me: SnakeView, cell: Coord)
    requires
        cell.x == -1 || cell.y == -1 || cell.x == board.width || cell.y == board.height,
        !snake_at(board.snakes, cell),
    ensures
        base_value(board, cell) == WALL_VALUE,
        move_value(board, me, cell) == WALL_VALUE + modifier(board, me, cell),
{
}

/// Scoring has no hidden state: two scores of one cell on one snapshot are
/// equal.
pub proof fn lemma_scoring_repeats(
    board: BoardView,
    me: SnakeView,
    cell: Coord,
    first: i32,
    second: i32,
)
    requires
        first == move_value(board, me, cell),
        second == move_value(board, me, cell),
    ensures
        first == second,
{
}

/// The modifier of `spot` for `me`.
pub fn spot_modifier(spot: &Coord, board: &Board, me: &Battlesnake) -> (r: i32)
    requires
        modifier_fits(me@.health),
    ensures
        r == modifier(board@, me@, *spot),
{
    let mut modifier: i32 = 0;
    if spot_might_have_snake(spot, board.snakes.as_slice(), me) {
        modifier = modifier - THREAT_PENALTY;
    }
    if spot_has_food(spot, board) {
        modifier = modifier + FOOD_BONUS;
    } else if spot_has_hazards(spot, board) {
        let leftover_health: i32 = me.health - HAZARD_DAMAGE;
        modifier = modifier - (HAZARD_COST - leftover_health);
    }
    if remaining_space(spot, board, me) >= me.length {
        modifier = modifier + ROOM_BONUS;
    } else {
        modifier = modifier - NO_ROOM_PENALTY;
    }
    modifier
}

/// The score of moving onto `spot`.
pub fn value_of_move(spot: &Coord, board: &Board, me: &Battlesnake) -> (r: i32)
    requires
        score_fits(me@.health),
    ensures
        r == move_value(board@, me@, *spot),
{
    let base_value: i32 = if spot_has_snake(spot, board.snakes.as_slice()) {
        COLLISION_VALUE
    } else if !valid_move(spot, board) {
        WALL_VALUE
    } else if spot.y == 0 || spot.x == 0 {
        EDGE_VALUE
    } else {
        OPEN_VALUE
    };
    base_value + spot_modifier(spot, board, me)
}

} // verus!
