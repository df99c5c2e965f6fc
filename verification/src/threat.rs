//! Cells that an opposing head may enter on its next move.

use vstd::prelude::*;
use crate::geometry::Coord;
use crate::snapshot::{snake_views, Battlesnake, SnakeView};

verus! {

/// `snake` is another snake than `me`, at least as long, whose head is one
/// step away from `cell`. Such a snake may move onto `cell` next turn and
/// would win the head-to-head collision.
pub open spec fn threatens(snake: SnakeView, me: SnakeView, cell: Coord) -> bool {
    snake.id != me.id && snake.length >= me.length && snake.head.adjacent(cell)
}

/// Some snake of the list threatens the cell.
pub open spec fn threatened(snakes: Seq<SnakeView>, me: SnakeView, cell: Coord) -> bool {
    exists|i: int| 0 <= i < snakes.len() && threatens(#[trigger] snakes[i], me, cell)
}

/// No cell is threatened where every snake on the board is `me` itself or
/// strictly shorter than `me`.
pub proof fn lemma_shorter_snakes_never_threaten(
    snakes: Seq<SnakeView>,
    me: SnakeView,
    cell: Coord,
)
    requires
        forall|i: int|
            0 <= i < snakes.len() ==> (#[trigger] snakes[i]).id == me.id || snakes[i].length
                < me.length,
    ensures
        !threatened(snakes, me, cell),
{
}

/// Whether the head of a snake other than `me`, and at least as long as `me`,
/// is one step away from `spot`.
pub fn spot_might_have_snake(spot: &Coord, snakes: &[Battlesnake], me: &Battlesnake) -> (r: bool)
    ensures
        r == threatened(snake_views(snakes@), me@, *spot),
{
    let ghost views = snake_views(snakes@);
    let mut i: usize = 0;
    while i < snakes.len()
        invariant
            i <= snakes.len(),
            views == snake_views(snakes@),
            forall|j: int| 0 <= j < i ==> !threatens(#[trigger] views[j], me@, *spot),
        decreases snakes.len() - i,
    {
        let snake = &snakes[i];
        assert(views[i as int] == snake@);
        if snake.id != me.id && snake.length >= me.length && snake.head.is_next_to(spot) {
            return true;
        }
        i += 1;
    }
    false
}

} // verus!
