//! The move: the direction whose cell scores highest.

use vstd::prelude::*;
use crate::score::{health_can_be_scored, move_value, score_fits, value_of_move};
use crate::snapshot::{Battlesnake, Board, SnakeView};

verus! {

/// The name of the first direction, in the order up, down, left, right, whose
/// score no other direction's exceeds.
pub open spec fn first_best(up: int, down: int, left: int, right: int) -> Seq<char> {
    if up >= down && up >= left && up >= right {
        "up"@
    } else if down >= left && down >= right {
        "down"@
    } else if left >= right {
        "left"@
    } else {
        "right"@
    }
}

/// A move can be chosen for a snake whose scores fit in an `i32` and whose
/// head has a neighbour on each side within the range of the coordinates.
pub open spec fn can_move(me: SnakeView) -> bool {
    &&& score_fits(me.health)
    &&& i32::MIN < me.head.x < i32::MAX
    &&& i32::MIN < me.head.y < i32::MAX
}

/// Whether a move can be chosen for `me`.
pub fn is_movable(me: &Battlesnake) -> (r: bool)
    ensures
        r == can_move(me@),
{
    let head = me.head;
    health_can_be_scored(me.health)
        && i32::MIN < head.x && head.x < i32::MAX
        && i32::MIN < head.y && head.y < i32::MAX
}

/// The direction in which `me` should move: the four cells next to its head
/// are scored, and the highest score wins. Of several directions with the
/// highest score the first in the order up, down, left, right is taken, so
/// there is always a move, also where every direction is fatal.
pub fn get_move(board: &Board, me: &Battlesnake) -> (r: &'static str)
    requires
        can_move(me@),
    ensures
        r@ == first_best(
            move_value(board@, me@, me.head.shifted(0, 1)),
            move_value(board@, me@, me.head.shifted(0, -1)),
            move_value(board@, me@, me.head.shifted(-1, 0)),
            move_value(board@, me@, me.head.shifted(1, 0)),
        ),
{
    let up: i32 = value_of_move(&me.head.up(), board, me);
    let down: i32 = value_of_move(&me.head.down(), board, me);
    let left: i32 = value_of_move(&me.head.left(), board, me);
    let right: i32 = value_of_move(&me.head.right(), board, me);
    let mut chosen: &'static str = "up";
    let mut best: i32 = up;
    if down > best {
        chosen = "down";
        best = down;
    }
    if left > best {
        chosen = "left";
        best = left;
    }
    if right > best {
        chosen = "right";
    }
    chosen
}

} // verus!
