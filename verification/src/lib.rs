//! A grid of covered cells with hidden traps: the cells, the placement of the traps on the
//! first reveal, the reveal that opens up blank regions, and the flags. The contracts are
//! stated over `grid_state::GridState`, the grid as a mathematical value.

pub mod cell;
pub mod cell_map;
pub mod flood;
pub mod game;
pub mod gem_animation;
pub mod grid_lemmas;
pub mod grid_state;
pub mod laws;
pub mod neighbours;
mod random;
pub mod screen;
pub mod seeding;
pub mod tally;

pub use cell::Cell;
pub use cell_map::{CellMap, GridError};
pub use game::{handle_input, handle_left_click, handle_right_click, Flow, Input};
pub use gem_animation::GemAnimation;
pub use screen::Region;
