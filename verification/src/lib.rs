//! Move evaluation for a snake on a bounded grid that it shares with other
//! snakes, food and hazard tiles.
//!
//! Every candidate cell next to the snake's head gets an integer score built
//! from occupancy, the reach of opposing heads, food and hazards, and the room
//! that a bounded flood fill finds behind the cell. The direction with the
//! highest score is the move.

pub mod geometry;
pub mod moves;
pub mod occupancy;
pub mod score;
pub mod snapshot;
pub mod space;
pub mod threat;

pub use geometry::Coord;
pub use moves::get_move;
pub use occupancy::{spot_has_food, spot_has_hazards, spot_has_snake, valid_move};
pub use score::{spot_modifier, value_of_move};
pub use snapshot::{Battlesnake, Board, BoardView, SnakeView};
pub use space::{check_spot_for_space, remaining_space};
pub use threat::spot_might_have_snake;
