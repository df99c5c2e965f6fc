//! The per-turn snapshot: the snakes on the board and the board itself.

use vstd::prelude::*;
use vstd::string::*;
use crate::geometry::Coord;

verus! {

/// What the evaluation reads of a snake.
pub struct SnakeView {
    pub id: Seq<char>,
    pub head: Coord,
    pub body: Seq<Coord>,
    pub length: int,
    pub health: int,
}

/// A snake as one turn's snapshot reports it.
///
/// `head` and `body` are kept apart: a snake occupies its head cell and every
/// cell of `body`, whether or not `body` repeats the head. `length` may exceed
/// the number of body cells while the snake is still growing.
#[derive(Clone, Debug)]
pub struct Battlesnake {
    pub body: Vec<Coord>,
    pub head: Coord,
    pub health: i32,
    pub id: String,
    pub latency: String,
    pub length: i32,
    pub name: String,
    pub shout: Option<String>,
    pub squad: Option<String>,
}

impl View for Battlesnake {
    type V = SnakeView;

    open spec fn view(&self) -> SnakeView {
        SnakeView {
            id: self.id@,
            head: self.head,
            body: self.body@,
            length: self.length as int,
            health: self.health as int,
        }
    }
}

/// The views of a list of snakes, in the list's order.
pub open spec fn snake_views(snakes: Seq<Battlesnake>) -> Seq<SnakeView> {
    Seq::new(snakes.len(), |i: int| snakes[i]@)
}

impl Default for Battlesnake {
    /// A snake of length 4 at full health, with its head at the origin and no
    /// body cells.
    fn default() -> (r: Battlesnake)
        ensures
            r@ == (SnakeView {
                id: "CorneliusCodes"@,
                head: Coord { x: 0, y: 0 },
                body: Seq::<Coord>::empty(),
                length: 4,
                health: 100,
            }),
            r.name@ == "CorneliusCodes"@,
            r.latency@ == Seq::<char>::empty(),
            r.shout is None,
            r.squad is None,
    {
        Battlesnake {
            body: Vec::new(),
            head: Coord::default(),
            health: 100,
            id: String::from_str("CorneliusCodes"),
            latency: String::new(),
            length: 4,
            name: String::from_str("CorneliusCodes"),
            shout: None,
            squad: None,
        }
    }
}

/// What the evaluation reads of a board.
pub struct BoardView {
    pub width: int,
    pub height: int,
    pub food: Seq<Coord>,
    pub hazards: Seq<Coord>,
    pub snakes: Seq<SnakeView>,
}

/// The board as one turn's snapshot reports it. `snakes` holds every snake
/// on the board, the evaluating one included.
#[derive(Debug)]
pub struct Board {
    pub food: Vec<Coord>,
    pub hazards: Vec<Coord>,
    pub height: i32,
    pub snakes: Vec<Battlesnake>,
    pub width: i32,
}

impl View for Board {
    type V = BoardView;

    open spec fn view(&self) -> BoardView {
        BoardView {
            width: self.width as int,
            height: self.height as int,
            food: self.food@,
            hazards: self.hazards@,
            snakes: snake_views(self.snakes@),
        }
    }
}

impl Default for Board {
    /// An empty board of width and height 0.
    fn default() -> (r: Board)
        ensures
            r@ == (BoardView {
                width: 0,
                height: 0,
                food: Seq::<Coord>::empty(),
                hazards: Seq::<Coord>::empty(),
                snakes: Seq::<SnakeView>::empty(),
            }),
    {
        let r = Board {
            food: Vec::new(),
            hazards: Vec::new(),
            height: 0,
            snakes: Vec::new(),
            width: 0,
        };
        assert(snake_views(r.snakes@) =~= Seq::<SnakeView>::empty());
        r
    }
}

} // verus!
